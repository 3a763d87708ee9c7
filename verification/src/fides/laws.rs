//! Laws of the middleware: what holds over calls and results.
use crate::digest::json_digest_of;
use crate::fides::content_label::{label_of_json, Confidentiality, ContentLabelView, Integrity};
use crate::fides::delivery::{
    absorbed_all, concluded, context_after, delivered, delivery_keeps_bounds,
    delivery_keeps_the_label, is_reference, item_shown, kept_metadata, metadata_label,
    part_count, result_shown, settled,
};
use crate::fides::event::call_event;
use crate::fides::invocation::InvocationView;
use crate::fides::label_laws::same_axes;
use crate::fides::message::{
    item_metadata, item_text, label_keys, plain_metadata, text_item, CallView, ResultView,
    ToolView,
};
use crate::fides::quarantine::quarantine_of;
use crate::fides::references::{
    all_known, bracketed, expanded, expanded_entries, expanded_items, inspected_reference,
    joined_labels, quarantined_references, reference_in, resolved, Variables, INSPECT_VARIABLE,
    MAX_DEPTH, QUARANTINED_LLM,
};
use crate::fides::session::{
    placeholder, shown_as, SessionView, VariableView, MAX_STORED_BYTES, MAX_VARIABLES,
};
use crate::fides::tracker::TrackerView;
use crate::json::{
    json_text, lemma_lookup_push, lemma_lookup_without, lookup, without_keys, EntriesView,
    JsonView,
};
use crate::json_laws::quotations_are_short;
use crate::line::{attempts, attempts_end_at_the_first_failure, lemma_first_works, line_of};
use crate::text::is_identifier;
use vstd::prelude::*;

verus! {

proof fn lemma_absorbed_covers(session: SessionView, hiding: bool, parts: Seq<VariableView>)
    ensures
        absorbed_all(session, hiding, parts).covers(session.label),
    decreases parts.len(),
{
    if parts.len() > 0 {
        lemma_absorbed_covers(session, hiding, parts.drop_last());
    }
}

proof fn lemma_delivered_covers(
    session: SessionView,
    invocation_id: Seq<char>,
    hiding: bool,
    parts: Seq<VariableView>,
    references: Seq<Seq<char>>,
)
    ensures
        delivered(session, invocation_id, hiding, parts, references).session.label.covers(
            session.label,
        ),
    decreases parts.len(),
{
    if parts.len() > 0 {
        lemma_delivered_covers(
            session,
            invocation_id,
            hiding,
            parts.drop_last(),
            references.drop_last(),
        );
    }
}

/// The label of a session only ever becomes more restrictive, whatever a result holds and
/// whether or not there is room for it.
pub proof fn results_never_lower_a_context(
    tracker: TrackerView,
    invocation: InvocationView,
    result: Option<ResultView>,
    imposed: Option<ContentLabelView>,
    references: Seq<Seq<char>>,
    session_id: Seq<char>,
)
    ensures
        tracker.finish(invocation, result, imposed, references).0.context_label(session_id).covers(
            tracker.context_label(session_id),
        ),
{
    if tracker.sessions.contains_key(invocation.session_id) {
        let session = tracker.sessions[invocation.session_id];
        let hiding = tracker.hides(invocation);
        let parts = invocation.parts(settled(result), imposed);
        lemma_absorbed_covers(session, hiding, parts);
        lemma_delivered_covers(session, invocation.id, hiding, parts, references);
    }
}

/// Checking a call changes the label of no session.
pub proof fn calls_keep_every_context(
    tracker: TrackerView,
    session_id: Seq<char>,
    tool: ToolView,
    call: CallView,
    trace_id: Seq<char>,
    id: Seq<char>,
    other: Seq<char>,
)
    ensures
        tracker.begin(session_id, tool, call, trace_id, id).0.context_label(other)
            == tracker.context_label(other),
{
}

/// A call and its result touch no other session than their own.
pub proof fn sessions_are_apart(
    tracker: TrackerView,
    session_id: Seq<char>,
    tool: ToolView,
    call: CallView,
    trace_id: Seq<char>,
    id: Seq<char>,
    invocation: InvocationView,
    result: Option<ResultView>,
    imposed: Option<ContentLabelView>,
    references: Seq<Seq<char>>,
    other: Seq<char>,
)
    requires
        other != session_id,
        other != invocation.session_id,
    ensures
        ({
            let begun = tracker.begin(session_id, tool, call, trace_id, id).0;
            let finished = tracker.finish(invocation, result, imposed, references).0;
            &&& begun.sessions.contains_key(other) == tracker.sessions.contains_key(other)
            &&& begun.sessions.contains_key(other) ==> begun.sessions[other]
                == tracker.sessions[other]
            &&& finished.sessions.contains_key(other) == tracker.sessions.contains_key(other)
            &&& finished.sessions.contains_key(other) ==> finished.sessions[other]
                == tracker.sessions[other]
        }),
{
}

proof fn lemma_items_expand(variables: Variables, items: Seq<JsonView>, depth: nat, i: int)
    requires
        0 <= i < items.len(),
        expanded_items(variables, items, depth) is Some,
    ensures
        expanded(variables, items[i], depth) is Some,
    decreases items.len(),
{
    if i < items.len() - 1 {
        assert(items.drop_last()[i] == items[i]);
        lemma_items_expand(variables, items.drop_last(), depth, i);
    }
}

proof fn lemma_entries_expand(variables: Variables, entries: EntriesView, depth: nat, i: int)
    requires
        0 <= i < entries.len(),
        expanded_entries(variables, entries, depth) is Some,
    ensures
        expanded(variables, entries[i].1, depth) is Some,
    decreases entries.len(),
{
    if i < entries.len() - 1 {
        assert(entries.drop_last()[i] == entries[i]);
        lemma_entries_expand(variables, entries.drop_last(), depth, i);
    }
}

/// Whether a value forwards a variable: it stands for the reference, or something in it does,
/// however deep.
pub open spec fn forwards(value: JsonView, reference: Seq<char>) -> bool
    decreases value,
{
    match reference_in(value) {
        Some(named) => named == reference,
        None => match value {
            JsonView::Array(items) => exists|i: int|
                0 <= i < items.len() && forwards(#[trigger] items[i], reference),
            JsonView::Object(entries) => exists|i: int|
                0 <= i < entries.len() && forwards((#[trigger] entries[i]).1, reference),
            _ => false,
        },
    }
}

proof fn lemma_unknown_is_refused(
    variables: Variables,
    value: JsonView,
    reference: Seq<char>,
    depth: nat,
)
    requires
        forwards(value, reference),
        !variables.contains_key(reference),
    ensures
        expanded(variables, value, depth) is None,
    decreases 40 - depth,
{
    if depth <= MAX_DEPTH && reference_in(value) is None {
        match value {
            JsonView::Array(items) => {
                let i = choose|i: int|
                    0 <= i < items.len() && forwards(#[trigger] items[i], reference);
                lemma_unknown_is_refused(variables, items[i], reference, depth + 1);
                if expanded_items(variables, items, depth + 1) is Some {
                    lemma_items_expand(variables, items, depth + 1, i);
                }
            },
            JsonView::Object(entries) => {
                let i = choose|i: int|
                    0 <= i < entries.len() && forwards((#[trigger] entries[i]).1, reference);
                lemma_unknown_is_refused(variables, entries[i].1, reference, depth + 1);
                if expanded_entries(variables, entries, depth + 1) is Some {
                    lemma_entries_expand(variables, entries, depth + 1, i);
                }
            },
            _ => {},
        }
    }
}

/// Whether a call names a reference: to inspect it, to have it quarantined, or to have it
/// forwarded in an argument, at any depth.
pub open spec fn names_reference(call: CallView, reference: Seq<char>) -> bool {
    if call.name == INSPECT_VARIABLE@ {
        lookup(call.arguments, "variable_id"@) == Some(JsonView::Text(reference))
    } else if call.name == QUARANTINED_LLM@ {
        lookup(call.arguments, "variable_ids"@) matches Some(JsonView::Array(items))
            && items.contains(JsonView::Text(reference))
    } else {
        exists|i: int|
            0 <= i < call.arguments.len() && forwards((#[trigger] call.arguments[i]).1, reference)
    }
}

/// Knowing a reference is of no use outside the session that holds it: a call that names a
/// variable which its session does not hold is refused.
pub proof fn unknown_references_are_refused(
    tracker: TrackerView,
    session_id: Seq<char>,
    tool: ToolView,
    call: CallView,
    trace_id: Seq<char>,
    id: Seq<char>,
    reference: Seq<char>,
)
    requires
        names_reference(call, reference),
        !tracker.sessions.contains_key(session_id)
            || !tracker.sessions[session_id].variables.contains_key(reference),
    ensures
        tracker.begin(session_id, tool, call, trace_id, id).1 is None,
{
    let entered = tracker.track(session_id, trace_id);
    let variables = entered.sessions[session_id].variables;
    assert(!variables.contains_key(reference));
    if call.name == INSPECT_VARIABLE@ {
        if let Some(references) = inspected_reference(call.arguments) {
            assert(references[0] == reference);
            assert(!all_known(variables, references));
        }
    } else if call.name == QUARANTINED_LLM@ {
        if let Some(references) = quarantined_references(call.arguments) {
            let items = lookup(call.arguments, "variable_ids"@)->Some_0->Array_0;
            let i = items.index_of(JsonView::Text(reference));
            assert(references[i] == reference);
            assert(!all_known(variables, references));
        }
    } else {
        let i = choose|i: int|
            0 <= i < call.arguments.len() && forwards((#[trigger] call.arguments[i]).1, reference);
        lemma_unknown_is_refused(variables, call.arguments[i].1, reference, 0);
        if expanded_entries(variables, call.arguments, 0) is Some {
            lemma_entries_expand(variables, call.arguments, 0, i);
        }
    }
}

proof fn lemma_joined_covers(
    variables: Variables,
    start: ContentLabelView,
    references: Seq<Seq<char>>,
)
    ensures
        joined_labels(variables, start, references).covers(start),
        forall|i: int|
            0 <= i < references.len() ==> joined_labels(variables, start, references).covers(
                variables[#[trigger] references[i]].label,
            ),
    decreases references.len(),
{
    if references.len() > 0 {
        let before = references.drop_last();
        lemma_joined_covers(variables, start, before);
        assert forall|i: int| 0 <= i < references.len() implies joined_labels(
            variables,
            start,
            references,
        ).covers(variables[#[trigger] references[i]].label) by {
            if i < before.len() {
                assert(before[i] == references[i]);
            }
        }
    }
}

/// A call is checked under a label that is as restrictive as its context and as every variable
/// in it, whatever its arguments claim.
pub proof fn calls_carry_context_and_variables(
    tracker: TrackerView,
    session_id: Seq<char>,
    tool: ToolView,
    call: CallView,
    trace_id: Seq<char>,
    id: Seq<char>,
)
    ensures
        tracker.begin(session_id, tool, call, trace_id, id).1 matches Some(invocation) ==> {
            let session = tracker.track(session_id, trace_id).sessions[session_id];
            let references = resolved(
                session.variables,
                call.name,
                call.arguments,
            )->Some_0.references;
            &&& invocation.label.covers(tracker.context_label(session_id))
            &&& forall|i: int|
                0 <= i < references.len() ==> invocation.label.covers(
                    session.variables[#[trigger] references[i]].label,
                )
        },
{
    let session = tracker.track(session_id, trace_id).sessions[session_id];
    if let Some(resolution) = resolved(session.variables, call.name, call.arguments) {
        lemma_joined_covers(session.variables, session.label, resolution.references);
    }
}

/// A call is blocked exactly where blocking is on and the call breaks its policy; it is then
/// given no result, nothing changes, and no model is asked.
pub proof fn violations_are_blocked_only_on_request(
    tracker: TrackerView,
    session_id: Seq<char>,
    tool: ToolView,
    call: CallView,
    trace_id: Seq<char>,
    id: Seq<char>,
    result: Option<ResultView>,
    imposed: Option<ContentLabelView>,
    references: Seq<Seq<char>>,
    manages_own_context: bool,
)
    ensures
        tracker.begin(session_id, tool, call, trace_id, id).1 matches Some(invocation) ==> {
            &&& invocation.blocked <==> tracker.config.block_on_violation
                && !invocation.policy.allows(invocation.label)
            &&& invocation.blocked ==> {
                let begun = tracker.begin(session_id, tool, call, trace_id, id).0;
                &&& begun.finish(invocation, result, imposed, references) == (
                    begun,
                    None::<ResultView>,
                )
                &&& quarantine_of(invocation, manages_own_context) is None
            }
        },
{
}

/// Calls and results keep the tracker within its bounds.
pub proof fn bounds_are_kept(
    tracker: TrackerView,
    session_id: Seq<char>,
    tool: ToolView,
    call: CallView,
    trace_id: Seq<char>,
    id: Seq<char>,
    invocation: InvocationView,
    result: Option<ResultView>,
    imposed: Option<ContentLabelView>,
    references: Seq<Seq<char>>,
)
    requires
        tracker.bounded(),
    ensures
        tracker.begin(session_id, tool, call, trace_id, id).0.bounded(),
        tracker.finish(invocation, result, imposed, references).0.bounded(),
{
    let begun = tracker.begin(session_id, tool, call, trace_id, id).0;
    if !tracker.sessions.contains_key(session_id) && tracker.admits(session_id, tool, call) {
        assert(begun.sessions.dom() =~= tracker.sessions.dom().insert(session_id));
    }
    if tracker.sessions.contains_key(invocation.session_id) {
        let session = tracker.sessions[invocation.session_id];
        delivery_keeps_bounds(
            session,
            invocation.id,
            tracker.hides(invocation),
            invocation.parts(settled(result), imposed),
            references,
        );
        let finished = tracker.finish(invocation, result, imposed, references).0;
        assert(finished.sessions.dom() =~= tracker.sessions.dom() || finished == tracker);
    }
}

/// Whether events can be written changes nothing else.
pub proof fn failed_log_changes_nothing_else(
    tracker: TrackerView,
    session_id: Seq<char>,
    tool: ToolView,
    call: CallView,
    trace_id: Seq<char>,
    id: Seq<char>,
    invocation: InvocationView,
    result: Option<ResultView>,
    imposed: Option<ContentLabelView>,
    references: Seq<Seq<char>>,
)
    ensures
        ({
            let silent = TrackerView { log_failed: true, ..tracker };
            let begun = tracker.begin(session_id, tool, call, trace_id, id);
            let begun_silent = silent.begin(session_id, tool, call, trace_id, id);
            let finished = tracker.finish(invocation, result, imposed, references);
            let finished_silent = silent.finish(invocation, result, imposed, references);
            &&& begun_silent.1 == begun.1
            &&& begun_silent.0.sessions == begun.0.sessions
            &&& begun_silent.0.pending == tracker.pending
            &&& finished_silent.1 == finished.1
            &&& finished_silent.0.sessions == finished.0.sessions
            &&& finished_silent.0.pending == tracker.pending
        }),
{
}

/// Lines are tried in order up to and with the first that cannot be written. Writing has failed
/// from then on if and only if there is one, and nothing else of the tracker changes: the labels
/// and variables of the sessions are the same whether or not the log works.
pub proof fn logging_stops_at_the_first_failure(tracker: TrackerView, works: Seq<bool>)
    requires
        works.len() == tracker.pending.len(),
    ensures
        tracker.flush(works).0 == tracker.lines().take(attempts(works) as int),
        tracker.flush(works).1 == (TrackerView {
            pending: Seq::empty(),
            log_failed: tracker.log_failed || works.contains(false),
            ..tracker
        }),
    decreases tracker.pending.len(),
{
    attempts_end_at_the_first_failure(works);
    if tracker.pending.len() > 0 {
        let next = tracker.taken().noted(works[0]);
        lemma_first_works(works);
        if works[0] {
            logging_stops_at_the_first_failure(next, works.drop_first());
            attempts_end_at_the_first_failure(works.drop_first());
            assert(next.lines() =~= tracker.lines().drop_first());
        } else {
            assert(next.flush(works.drop_first()) == (Seq::<Seq<u8>>::empty(), next));
        }
        assert(tracker.flush(works).0 =~= tracker.lines().take(attempts(works) as int));
    } else {
        assert(!works.contains(false));
        assert(tracker.flush(works).0 =~= tracker.lines().take(0));
    }
}

/// The next line of a tracker is that of its oldest event that is to be written, and taking it
/// out leaves the others.
pub proof fn lines_are_those_of_the_events(tracker: TrackerView)
    ensures
        tracker.pending.len() > 0 ==> {
            &&& tracker.next_line() == Some(line_of(tracker.pending[0]))
            &&& seq![tracker.pending[0]] + tracker.taken().pending == tracker.pending
        },
        tracker.pending.len() == 0 ==> tracker.next_line() is None && tracker.taken() == tracker,
{
    if tracker.pending.len() > 0 {
        assert(seq![tracker.pending[0]] + tracker.taken().pending =~= tracker.pending);
    } else {
        assert(tracker.taken() =~= tracker);
    }
}

/// While writing works, events are tried to be written each as its own line, in order up to and
/// with the first that cannot be written; once writing has failed, none of them is.
pub proof fn events_are_written_as_lines(
    tracker: TrackerView,
    events: Seq<JsonView>,
    works: Seq<bool>,
)
    requires
        tracker.pending.len() == 0,
        works.len() == events.len(),
    ensures
        ({
            let (tried, after) = tracker.emit(events).flush(works);
            let lines = events.map_values(|event: JsonView| line_of(event));
            if tracker.log_failed {
                tried.len() == 0 && after == tracker
            } else {
                &&& tried == lines.take(attempts(works) as int)
                &&& after == TrackerView { log_failed: works.contains(false), ..tracker }
            }
        }),
{
    let emitted = tracker.emit(events);
    if tracker.log_failed {
        assert(emitted =~= tracker);
    } else {
        assert(emitted.pending =~= events);
        logging_stops_at_the_first_failure(emitted, works);
        assert(emitted.flush(works).1 =~= TrackerView {
            log_failed: works.contains(false),
            ..tracker
        });
    }
}

/// Reports alone change whether a failure to write was reported, and no call and no result
/// undoes a failure: so each tracker reports one once.
pub proof fn failures_are_reported_once(
    tracker: TrackerView,
    session_id: Seq<char>,
    tool: ToolView,
    call: CallView,
    trace_id: Seq<char>,
    id: Seq<char>,
    invocation: InvocationView,
    result: Option<ResultView>,
    imposed: Option<ContentLabelView>,
    references: Seq<Seq<char>>,
    written: bool,
)
    ensures
        ({
            let begun = tracker.begin(session_id, tool, call, trace_id, id).0;
            let finished = tracker.finish(invocation, result, imposed, references).0;
            let noted = tracker.noted(written);
            &&& begun.warned == tracker.warned && begun.log_failed == tracker.log_failed
            &&& finished.warned == tracker.warned && finished.log_failed == tracker.log_failed
            &&& noted.warned == tracker.warned && noted.log_failed == (tracker.log_failed
                || !written)
            &&& tracker.taken().warned == tracker.warned && tracker.taken().log_failed
                == tracker.log_failed
        }),
{
}

proof fn lemma_absorbed_parts(session: SessionView, hiding: bool, parts: Seq<VariableView>)
    ensures
        ({
            let after = absorbed_all(session, hiding, parts);
            forall|i: int|
                0 <= i < parts.len() ==> {
                    let label = (#[trigger] parts[i]).label;
                    &&& after.confidentiality.rank() >= label.confidentiality.rank()
                    &&& !session.conceals(hiding, label) ==> after.integrity.rank()
                        >= label.integrity.rank()
                }
        }),
    decreases parts.len(),
{
    if parts.len() > 0 {
        let before = parts.drop_last();
        lemma_absorbed_parts(session, hiding, before);
        let after = absorbed_all(session, hiding, parts);
        assert forall|i: int| 0 <= i < parts.len() implies {
            let label = (#[trigger] parts[i]).label;
            &&& after.confidentiality.rank() >= label.confidentiality.rank()
            &&& !session.conceals(hiding, label) ==> after.integrity.rank()
                >= label.integrity.rank()
        } by {
            if i < before.len() {
                assert(before[i] == parts[i]);
            }
        }
    }
}

proof fn lemma_absorbed_hidden(session: SessionView, hiding: bool, parts: Seq<VariableView>)
    requires
        forall|i: int|
            0 <= i < parts.len() ==> session.conceals(hiding, (#[trigger] parts[i]).label),
    ensures
        absorbed_all(session, hiding, parts).integrity == session.label.integrity,
    decreases parts.len(),
{
    if parts.len() > 0 {
        let before = parts.drop_last();
        assert forall|i: int| 0 <= i < before.len() implies session.conceals(
            hiding,
            (#[trigger] before[i]).label,
        ) by {
            assert(before[i] == parts[i]);
        }
        lemma_absorbed_hidden(session, hiding, before);
        assert(session.conceals(hiding, parts[parts.len() - 1].label));
    }
}

/// Every value of a result adds its confidentiality to the context, hidden or not; every value
/// that is shown adds its integrity too.
pub proof fn results_add_to_the_context(
    session: SessionView,
    invocation: InvocationView,
    hiding: bool,
    result: Option<ResultView>,
    imposed: Option<ContentLabelView>,
    references: Seq<Seq<char>>,
    i: int,
)
    requires
        0 <= i < invocation.parts(settled(result), imposed).len(),
    ensures
        ({
            let conclusion = concluded(session, invocation, hiding, result, imposed, references);
            let label = invocation.parts(settled(result), imposed)[i].label;
            conclusion.output is Some ==> {
                &&& conclusion.session.label.confidentiality.rank() >= label.confidentiality.rank()
                &&& !session.conceals(hiding, label) ==> conclusion.session.label.covers(label)
            }
        }),
{
    lemma_absorbed_parts(session, hiding, invocation.parts(settled(result), imposed));
}

/// A result whose values are all hidden leaves the integrity of the context alone.
pub proof fn hidden_results_keep_integrity(
    session: SessionView,
    invocation: InvocationView,
    hiding: bool,
    result: ResultView,
    imposed: Option<ContentLabelView>,
    references: Seq<Seq<char>>,
)
    requires
        forall|i: int|
            0 <= i < invocation.parts(result, imposed).len() ==> session.conceals(
                hiding,
                (#[trigger] invocation.parts(result, imposed)[i]).label,
            ),
    ensures
        ({
            let conclusion = concluded(
                session,
                invocation,
                hiding,
                Some(result),
                imposed,
                references,
            );
            conclusion.output is Some ==> conclusion.session.label.integrity
                == session.label.integrity
        }),
{
    lemma_absorbed_hidden(session, hiding, invocation.parts(result, imposed));
}

/// Nothing is hidden from an untrusted context, and an untrusted context stays one.
pub proof fn hiding_stops_for_good(
    tracker: TrackerView,
    invocation: InvocationView,
    result: Option<ResultView>,
    imposed: Option<ContentLabelView>,
    references: Seq<Seq<char>>,
    session_id: Seq<char>,
    label: ContentLabelView,
)
    requires
        tracker.sessions.contains_key(session_id),
        tracker.context_label(session_id).integrity == Integrity::Untrusted,
    ensures
        ({
            let after = tracker.finish(invocation, result, imposed, references).0;
            &&& after.context_label(session_id).integrity == Integrity::Untrusted
            &&& !tracker.sessions[session_id].conceals(tracker.hides(invocation), label)
            &&& !after.sessions[session_id].conceals(tracker.hides(invocation), label)
        }),
{
    results_never_lower_a_context(tracker, invocation, result, imposed, references, session_id);
}

/// Where a result has values of its own, a root label that none of them uses adds nothing to
/// the context.
pub proof fn unused_root_adds_nothing(
    session: SessionView,
    hiding: bool,
    parts: Seq<VariableView>,
    root: ContentLabelView,
    other: ContentLabelView,
)
    requires
        parts.len() > 0,
    ensures
        context_after(session, hiding, parts, root, false) == context_after(
            session,
            hiding,
            parts,
            other,
            false,
        ),
{
}

/// A result without any value keeps the confidentiality of its root label, and adds nothing
/// else.
pub proof fn empty_results_keep_the_root(
    session: SessionView,
    invocation: InvocationView,
    hiding: bool,
    result: ResultView,
    imposed: Option<ContentLabelView>,
)
    requires
        part_count(result) == 0,
    ensures
        ({
            let conclusion = concluded(
                session,
                invocation,
                hiding,
                Some(result),
                imposed,
                Seq::empty(),
            );
            let root = invocation.root_label(result, imposed);
            &&& conclusion.output is Some
            &&& conclusion.session.label == (ContentLabelView {
                confidentiality: session.label.confidentiality.higher(root.confidentiality),
                ..session.label
            })
        }),
{
    assert(invocation.parts(result, imposed).len() == 0);
}

/// A call that could not be carried out adds all of its root label to the context.
pub proof fn failures_add_the_root(
    session: SessionView,
    invocation: InvocationView,
    hiding: bool,
    imposed: Option<ContentLabelView>,
    references: Seq<Seq<char>>,
)
    ensures
        ({
            let conclusion = concluded(session, invocation, hiding, None, imposed, references);
            let root = invocation.root_label(settled(None), imposed);
            &&& root.integrity == Integrity::Untrusted
            &&& root.confidentiality.rank() >= invocation.label.confidentiality.rank()
            &&& conclusion.output is Some ==> conclusion.session.label.covers(root)
        }),
{
}

/// Without the host's leave no claim in a result is believed: each value has the label that
/// the policy gives.
pub proof fn claims_need_leave(
    invocation: InvocationView,
    result: ResultView,
    imposed: Option<ContentLabelView>,
    i: int,
)
    requires
        !invocation.policy.trust_result_labels || imposed is Some,
        0 <= i < invocation.parts(result, imposed).len(),
    ensures
        invocation.parts(result, imposed)[i].label == invocation.fallback_label(result, imposed),
{
}

/// A claim that cannot be read is taken at its most restrictive.
pub proof fn malformed_claims_are_restrictive(
    metadata: EntriesView,
    claim: JsonView,
    fallback: ContentLabelView,
    label: ContentLabelView,
)
    requires
        label_of_json(claim) is None,
        lookup(metadata, "security_label"@) == Some(claim) || lookup(metadata, "security_label"@)
            is None && lookup(metadata, "ifc"@) == Some(claim),
    ensures
        metadata_label(Some(metadata), fallback) == ContentLabelView::untrusted(
            Confidentiality::UserIdentity,
        ),
        metadata_label(Some(metadata), fallback).covers(label),
{
}

/// What a quarantined model answers is untrusted and as confidential as what it was given,
/// whatever the answer claims.
pub proof fn quarantined_answers_stay_untrusted(
    invocation: InvocationView,
    result: ResultView,
    i: int,
)
    requires
        0 <= i < invocation.parts(
            result,
            Some(ContentLabelView::untrusted(invocation.label.confidentiality)),
        ).len(),
    ensures
        ({
            let imposed = Some(ContentLabelView::untrusted(invocation.label.confidentiality));
            same_axes(
                invocation.parts(result, imposed)[i].label,
                ContentLabelView::untrusted(invocation.label.confidentiality),
            )
        }),
{
}

/// The text that forwards a variable.
pub open spec fn forwarding_text(reference: Seq<char>) -> JsonView {
    JsonView::Text("["@ + reference + "]"@)
}

/// The object that forwards a variable.
pub open spec fn forwarding_object(reference: Seq<char>) -> JsonView {
    JsonView::Object(seq![("$fides_variable"@, JsonView::Text(reference))])
}

/// Both ways of forwarding a variable put its payload in place and name its reference.
pub proof fn forwarded_variables_are_put_in_place(
    variables: Variables,
    reference: Seq<char>,
    depth: nat,
)
    requires
        is_reference(reference),
        variables.contains_key(reference),
        depth <= MAX_DEPTH,
    ensures
        expanded(variables, forwarding_text(reference), depth) == Some(
            (variables[reference].payload, seq![reference]),
        ),
        expanded(variables, forwarding_object(reference), depth) == Some(
            (variables[reference].payload, seq![reference]),
        ),
{
    let identifier = choose|identifier: Seq<char>| #[trigger]
        is_identifier(identifier) && reference == "var_"@ + identifier;
    reveal_strlit("[");
    reveal_strlit("]");
    reveal_strlit("var_");
    let text = "["@ + reference + "]"@;
    assert(text.subrange(1, text.len() - 1) =~= reference);
    assert(reference.subrange(0, 4) =~= "var_"@);
    assert(bracketed(text) == Some(reference));
    reveal_with_fuel(lookup, 2);
}

/// A text that is more or less than a bracketed reference is passed on as it is: nothing is
/// put in place inside of it.
pub proof fn other_texts_are_passed_on(variables: Variables, text: Seq<char>, depth: nat)
    requires
        bracketed(text) is None,
        depth <= MAX_DEPTH,
    ensures
        expanded(variables, JsonView::Text(text), depth) == Some(
            (JsonView::Text(text), Seq::<Seq<char>>::empty()),
        ),
{
}

/// Arguments in which no variable is named are passed on unchanged.
pub proof fn unreferenced_arguments_are_unchanged(variables: Variables, arguments: EntriesView)
    ensures
        expanded_entries(variables, arguments, 0) matches Some((passed, references))
            ==> references.len() == 0 ==> passed == arguments,
{
    lemma_entries_unchanged(variables, arguments, 0);
}

proof fn lemma_value_unchanged(variables: Variables, value: JsonView, depth: nat)
    ensures
        expanded(variables, value, depth) matches Some((passed, references))
            ==> references.len() == 0 ==> passed == value,
    decreases 40 - depth, 0nat,
{
    if depth <= MAX_DEPTH {
        match value {
            JsonView::Array(items) => {
                lemma_items_unchanged(variables, items, depth + 1);
            },
            JsonView::Object(entries) => {
                lemma_entries_unchanged(variables, entries, depth + 1);
            },
            _ => {},
        }
    }
}

proof fn lemma_items_unchanged(variables: Variables, items: Seq<JsonView>, depth: nat)
    ensures
        expanded_items(variables, items, depth) matches Some((passed, references))
            ==> references.len() == 0 ==> passed == items,
    decreases 40 - depth, items.len() + 1,
{
    if items.len() == 0 {
        assert(items =~= Seq::empty());
    } else if depth <= MAX_DEPTH + 1 {
        lemma_items_unchanged(variables, items.drop_last(), depth);
        lemma_value_unchanged(variables, items.last(), depth);
        assert(items =~= items.drop_last().push(items.last()));
    }
}

proof fn lemma_entries_unchanged(variables: Variables, entries: EntriesView, depth: nat)
    ensures
        expanded_entries(variables, entries, depth) matches Some((passed, references))
            ==> references.len() == 0 ==> passed == entries,
    decreases 40 - depth, entries.len() + 1,
{
    if entries.len() == 0 {
        assert(entries =~= Seq::empty());
    } else if depth <= MAX_DEPTH + 1 {
        lemma_entries_unchanged(variables, entries.drop_last(), depth);
        lemma_value_unchanged(variables, entries.last().1, depth);
        assert(entries =~= entries.drop_last().push((entries.last().0, entries.last().1)));
    }
}

proof fn lemma_label_keys()
    ensures
        label_keys().contains("security_label"@),
        label_keys().contains("ifc"@),
        label_keys().contains("goose.fides.label"@),
        label_keys().contains("goose.fides.context"@),
{
    let keys = label_keys();
    assert(keys[0] == "security_label"@);
    assert(keys[1] == "ifc"@);
    assert(keys[2] == "goose.fides.label"@);
    assert(keys[3] == "goose.fides.context"@);
}

/// An item that is shown carries the label that the host gave it and no other claim; what else
/// its metadata holds, and every other field, is kept.
pub proof fn item_claims_are_replaced(
    item: EntriesView,
    label: ContentLabelView,
    reference: Seq<char>,
    key: Seq<char>,
)
    ensures
        ({
            let shown = item_shown(item, label, false, reference);
            let before = match item_metadata(item) {
                Some(metadata) => metadata,
                None => Seq::empty(),
            };
            &&& item_metadata(shown) matches Some(metadata) && lookup(metadata, key) == (
            if key == "goose.fides.label"@ {
                Some(label.json())
            } else if label_keys().contains(key) {
                None
            } else {
                lookup(before, key)
            })
            &&& key != "_meta"@ ==> lookup(shown, key) == lookup(item, key)
        }),
{
    lemma_label_keys();
    let before = match item_metadata(item) {
        Some(metadata) => metadata,
        None => Seq::empty(),
    };
    let plain = match item_metadata(item) {
        Some(metadata) => plain_metadata(metadata),
        None => Seq::empty(),
    };
    let metadata = plain.push(("goose.fides.label"@, label.json()));
    let last = ("_meta"@, JsonView::Object(metadata));
    lemma_lookup_without(before, label_keys(), key);
    lemma_lookup_push(plain, ("goose.fides.label"@, label.json()), key);
    assert(seq!["_meta"@][0] == "_meta"@);
    lemma_lookup_without(item, seq!["_meta"@], "_meta"@);
    lemma_lookup_push(without_keys(item, seq!["_meta"@]), last, "_meta"@);
    lemma_lookup_without(item, seq!["_meta"@], key);
    lemma_lookup_push(without_keys(item, seq!["_meta"@]), last, key);
    if item_metadata(item) is None {
        assert(lookup(plain, key) is None);
        assert(lookup(before, key) is None);
    }
}

/// A result that is handed on carries the label of its context and no other claim. What else
/// its metadata held is kept where it may be shown, and left out where it is hidden.
pub proof fn result_claims_are_replaced(
    session: SessionView,
    hiding: bool,
    result: ResultView,
    parts: Seq<VariableView>,
    root: ContentLabelView,
    references: Seq<Seq<char>>,
    context: ContentLabelView,
    key: Seq<char>,
)
    ensures
        ({
            let shown = result_shown(session, hiding, result, parts, root, references, context);
            &&& shown.meta matches Some(metadata) && lookup(metadata, key) == (
            if key == "goose.fides.context"@ {
                Some(context.json())
            } else if label_keys().contains(key) || session.conceals(hiding, root) {
                None
            } else {
                match result.meta {
                    Some(meta) => lookup(meta, key),
                    None => None,
                }
            })
        }),
{
    lemma_label_keys();
    let last = ("goose.fides.context"@, context.json());
    lemma_lookup_push(Seq::empty(), last, key);
    lemma_lookup_push(kept_metadata(result), last, key);
    if let Some(meta) = result.meta {
        lemma_lookup_without(meta, label_keys(), key);
    }
}

proof fn lemma_delivery_retains(
    session: SessionView,
    invocation_id: Seq<char>,
    hiding: bool,
    parts: Seq<VariableView>,
    references: Seq<Seq<char>>,
)
    ensures
        ({
            let delivery = delivered(session, invocation_id, hiding, parts, references);
            !delivery.complete ==> exists|i: int|
                0 <= i < parts.len() && session.conceals(hiding, (#[trigger] parts[i]).label)
                    && delivery.session.label.covers(parts[i].label)
        }),
    decreases parts.len(),
{
    if parts.len() > 0 {
        let before = delivered(
            session,
            invocation_id,
            hiding,
            parts.drop_last(),
            references.drop_last(),
        );
        lemma_delivery_retains(
            session,
            invocation_id,
            hiding,
            parts.drop_last(),
            references.drop_last(),
        );
        delivery_keeps_the_label(
            session,
            invocation_id,
            hiding,
            parts.drop_last(),
            references.drop_last(),
        );
        if !before.complete {
            let i = choose|i: int|
                0 <= i < parts.drop_last().len() && session.conceals(
                    hiding,
                    (#[trigger] parts.drop_last()[i]).label,
                ) && before.session.label.covers(parts.drop_last()[i].label);
            assert(parts[i] == parts.drop_last()[i]);
        } else {
            assert(parts.last() == parts[parts.len() - 1]);
        }
    }
}

/// A result for which there is no room is not handed on, and the session takes on the label of
/// a value that was to be hidden: the context is untrusted from then on.
pub proof fn lack_of_room_is_restrictive(
    session: SessionView,
    invocation: InvocationView,
    hiding: bool,
    result: Option<ResultView>,
    imposed: Option<ContentLabelView>,
    references: Seq<Seq<char>>,
)
    ensures
        ({
            let conclusion = concluded(session, invocation, hiding, result, imposed, references);
            let parts = invocation.parts(settled(result), imposed);
            conclusion.output is None ==> {
                &&& conclusion.session.label.integrity == Integrity::Untrusted
                &&& exists|i: int|
                    0 <= i < parts.len() && conclusion.session.label.covers(
                        (#[trigger] parts[i]).label,
                    )
            }
        }),
{
    let parts = invocation.parts(settled(result), imposed);
    lemma_delivery_retains(session, invocation.id, hiding, parts, references);
}

/// There is room for a text whose label has no metadata, as long as the session has a place
/// left and six bytes for each character, and two more.
pub proof fn short_texts_find_room(
    session: SessionView,
    hiding: bool,
    text: Seq<char>,
    label: ContentLabelView,
)
    requires
        session.variables.len() < MAX_VARIABLES,
        label.metadata.len() == 0,
        6 * text.len() + 2 <= MAX_STORED_BYTES - session.stored_bytes,
    ensures
        session.can_present(hiding, VariableView { payload: JsonView::Text(text), label }),
{
    quotations_are_short(text);
}

/// A text that finds room is handed on, hidden or not.
pub proof fn short_text_results_are_handed_on(
    session: SessionView,
    invocation: InvocationView,
    hiding: bool,
    text: Seq<char>,
    is_error: bool,
    imposed: Option<ContentLabelView>,
    references: Seq<Seq<char>>,
)
    requires
        session.variables.len() < MAX_VARIABLES,
        6 * text.len() + 2 <= MAX_STORED_BYTES - session.stored_bytes,
        invocation.root_label(
            ResultView::complete(seq![text_item(text)], is_error),
            imposed,
        ).metadata.len() == 0,
    ensures
        concluded(
            session,
            invocation,
            hiding,
            Some(ResultView::complete(seq![text_item(text)], is_error)),
            imposed,
            references,
        ).output is Some,
{
    let result = ResultView::complete(seq![text_item(text)], is_error);
    let parts = invocation.parts(result, imposed);
    let root = invocation.root_label(result, imposed);
    lemma_names_of_items();
    let item = result.content[0];
    reveal_with_fuel(lookup, 3);
    assert(item.drop_first()[0] == item[1]);
    assert(item_text(item) == Some(text));
    assert(item_metadata(item) is None);
    assert(parts.len() == 1);
    assert(parts[0] == (VariableView { payload: JsonView::Text(text), label: root }));
    assert(parts.drop_last().len() == 0);
    short_texts_find_room(session, hiding, text, root);
    assert(delivered(
        session,
        invocation.id,
        hiding,
        parts.drop_last(),
        references.drop_last(),
    ).complete);
    assert(delivered(session, invocation.id, hiding, parts, references).complete);
}

/// A reference that no value of the result is presented under means what it meant before.
proof fn lemma_delivery_keeps_others(
    session: SessionView,
    invocation_id: Seq<char>,
    hiding: bool,
    parts: Seq<VariableView>,
    references: Seq<Seq<char>>,
    reference: Seq<char>,
)
    requires
        references.len() == parts.len(),
        !references.contains(reference),
    ensures
        ({
            let after = delivered(session, invocation_id, hiding, parts, references).session;
            &&& after.variables.contains_key(reference) == session.variables.contains_key(reference)
            &&& session.variables.contains_key(reference) ==> after.variables[reference]
                == session.variables[reference]
        }),
    decreases parts.len(),
{
    if parts.len() > 0 {
        assert(references[references.len() - 1] != reference);
        assert forall|i: int| 0 <= i < references.drop_last().len() implies references.drop_last()[i]
            != reference by {
            assert(references[i] != reference);
        }
        lemma_delivery_keeps_others(
            session,
            invocation_id,
            hiding,
            parts.drop_last(),
            references.drop_last(),
            reference,
        );
    }
}

proof fn lemma_delivery_stores(
    session: SessionView,
    invocation_id: Seq<char>,
    hiding: bool,
    parts: Seq<VariableView>,
    references: Seq<Seq<char>>,
    i: int,
)
    requires
        references.len() == parts.len(),
        references.no_duplicates(),
        0 <= i < parts.len(),
        session.conceals(hiding, parts[i].label),
        delivered(session, invocation_id, hiding, parts, references).complete,
    ensures
        ({
            let after = delivered(session, invocation_id, hiding, parts, references).session;
            after.variables.contains_key(references[i]) && after.variables[references[i]]
                == parts[i]
        }),
    decreases parts.len(),
{
    let before = delivered(
        session,
        invocation_id,
        hiding,
        parts.drop_last(),
        references.drop_last(),
    );
    delivery_keeps_the_label(
        session,
        invocation_id,
        hiding,
        parts.drop_last(),
        references.drop_last(),
    );
    if i < parts.len() - 1 {
        assert(parts.drop_last()[i] == parts[i]);
        assert(references.drop_last()[i] == references[i]);
        assert(references[i] != references[references.len() - 1]);
        lemma_delivery_stores(
            session,
            invocation_id,
            hiding,
            parts.drop_last(),
            references.drop_last(),
            i,
        );
    }
}

/// A value that was hidden is kept with its label, metadata and all, under the reference that
/// stands for it; what was hidden before is kept as it was.
pub proof fn hidden_values_are_kept(
    session: SessionView,
    invocation: InvocationView,
    hiding: bool,
    result: Option<ResultView>,
    imposed: Option<ContentLabelView>,
    references: Seq<Seq<char>>,
    i: int,
    earlier: Seq<char>,
)
    requires
        references.len() == part_count(settled(result)),
        references.no_duplicates(),
        concluded(session, invocation, hiding, result, imposed, references).output is Some,
    ensures
        ({
            let after = concluded(
                session,
                invocation,
                hiding,
                result,
                imposed,
                references,
            ).session.variables;
            let parts = invocation.parts(settled(result), imposed);
            &&& 0 <= i < parts.len() && session.conceals(hiding, parts[i].label) ==> {
                &&& after.contains_key(references[i])
                &&& after[references[i]] == parts[i]
            }
            &&& session.variables.contains_key(earlier) && !references.contains(earlier) ==> {
                &&& after.contains_key(earlier)
                &&& after[earlier] == session.variables[earlier]
            }
        }),
{
    let parts = invocation.parts(settled(result), imposed);
    assert(parts.len() == references.len());
    if 0 <= i < parts.len() && session.conceals(hiding, parts[i].label) {
        lemma_delivery_stores(session, invocation.id, hiding, parts, references, i);
    }
    if !references.contains(earlier) {
        lemma_delivery_keeps_others(session, invocation.id, hiding, parts, references, earlier);
    }
}

/// A variable of the session can be inspected, with a reason or without: the call is admitted whatever the policy and is
/// not blocked, the text of the variable is what the inspection shows, and once it is shown the
/// session's label is as restrictive as the variable's.
pub proof fn inspection_shows_and_taints(
    tracker: TrackerView,
    session_id: Seq<char>,
    tool: ToolView,
    call: CallView,
    trace_id: Seq<char>,
    id: Seq<char>,
    reference: Seq<char>,
    references: Seq<Seq<char>>,
)
    requires
        tool.name == INSPECT_VARIABLE@,
        call.name == INSPECT_VARIABLE@,
        inspected_reference(call.arguments) == Some(seq![reference]),
        tracker.sessions.contains_key(session_id),
        tracker.sessions[session_id].variables.contains_key(reference),
        references.len() == 1,
    ensures
        ({
            let variable = tracker.sessions[session_id].variables[reference];
            let text = match variable.payload {
                JsonView::Text(text) => text,
                payload => json_text(payload),
            };
            let begun = tracker.begin(session_id, tool, call, trace_id, id);
            &&& begun.1 matches Some(invocation) && {
                let finished = begun.0.finish(
                    invocation,
                    invocation.inspection(),
                    Some(invocation.label),
                    references,
                );
                &&& !invocation.blocked
                &&& invocation.inspection() == Some(
                    ResultView::complete(seq![text_item(text)], false),
                )
                &&& finished.1 matches Some(output) && output.content.len() == 1 && item_text(
                    output.content[0],
                ) == Some(text)
                &&& finished.0.context_label(session_id).covers(variable.label)
            }
        }),
{
    let session = tracker.sessions[session_id];
    let named = seq![reference];
    reveal_with_fuel(lookup, 3);
    assert(all_known(session.variables, named));
    let resolution = resolved(session.variables, call.name, call.arguments)->Some_0;
    assert(resolution.references == named);
    assert(resolution.variables[0] == session.variables[reference].payload);
    lemma_joined_covers(session.variables, session.label, named);
    assert(named[0] == reference);
    let begun = tracker.begin(session_id, tool, call, trace_id, id);
    let invocation = begun.1->Some_0;
    let shown = invocation.inspection()->Some_0;
    let imposed = Some(invocation.label);
    let parts = invocation.parts(shown, imposed);
    let hiding = begun.0.hides(invocation);
    assert(!hiding);
    assert(parts.len() == 1);
    assert(parts[0].label == invocation.label);
    assert(parts.drop_last().len() == 0);
    assert(references.drop_last().len() == 0);
    let delivery = delivered(session, invocation.id, hiding, parts, references);
    assert(delivered(session, invocation.id, hiding, parts.drop_last(), references.drop_last()).complete);
    assert(delivery.complete);
    lemma_absorbed_parts(session, hiding, parts);
    let output = begun.0.finish(invocation, Some(shown), imposed, references).1->Some_0;
    let text = item_text(shown.content[0]);
    lemma_names_of_items();
    item_claims_are_replaced(shown.content[0], invocation.label, references[0], "type"@);
    item_claims_are_replaced(shown.content[0], invocation.label, references[0], "text"@);
    assert(output.content[0] == item_shown(
        shown.content[0],
        parts[0].label,
        false,
        references[0],
    ));
    lemma_absorbed_covers(session, hiding, parts);
}

proof fn lemma_names_of_items()
    ensures
        "type"@ != "_meta"@,
        "text"@ != "_meta"@,
        "type"@ != "text"@,
{
    reveal_strlit("type");
    reveal_strlit("text");
    reveal_strlit("_meta");
    assert("type"@.len() == 4);
    assert("text"@.len() == 4);
    assert("_meta"@.len() == 5);
    assert("type"@[1] == 'y');
    assert("text"@[1] == 'e');
}

/// A placeholder tells the classification of what it stands for, and nothing of the contents
/// or the metadata.
pub proof fn placeholders_hold_only_axes(
    reference: Seq<char>,
    left: VariableView,
    right: VariableView,
)
    requires
        same_axes(left.label, right.label),
    ensures
        shown_as(true, left.payload, left.label, reference) == shown_as(
            true,
            right.payload,
            right.label,
            reference,
        ),
{
}

/// Whether two lists of values look the same in events: one by one, the same classification and
/// the same digest.
pub open spec fn alike_in_events(left: Seq<VariableView>, right: Seq<VariableView>) -> bool {
    &&& left.len() == right.len()
    &&& forall|i: int|
        0 <= i < left.len() ==> same_axes((#[trigger] left[i]).label, right[i].label)
            && json_digest_of(left[i].payload) == json_digest_of(right[i].payload)
}

/// The events of values hold their classifications and digests, and nothing else of them.
pub proof fn value_events_hold_only_digests(
    session: SessionView,
    invocation_id: Seq<char>,
    hiding: bool,
    left: Seq<VariableView>,
    right: Seq<VariableView>,
    references: Seq<Seq<char>>,
)
    requires
        alike_in_events(left, right),
        delivered(session, invocation_id, hiding, left, references).complete,
        delivered(session, invocation_id, hiding, right, references).complete,
    ensures
        delivered(session, invocation_id, hiding, left, references).events == delivered(
            session,
            invocation_id,
            hiding,
            right,
            references,
        ).events,
    decreases left.len(),
{
    if left.len() > 0 {
        assert forall|i: int| 0 <= i < left.len() - 1 implies same_axes(
            (#[trigger] left.drop_last()[i]).label,
            right.drop_last()[i].label,
        ) && json_digest_of(left.drop_last()[i].payload) == json_digest_of(
            right.drop_last()[i].payload,
        ) by {
            assert(same_axes(left[i].label, right[i].label));
        }
        value_events_hold_only_digests(
            session,
            invocation_id,
            hiding,
            left.drop_last(),
            right.drop_last(),
            references.drop_last(),
        );
        delivery_keeps_the_label(
            session,
            invocation_id,
            hiding,
            left.drop_last(),
            references.drop_last(),
        );
        delivery_keeps_the_label(
            session,
            invocation_id,
            hiding,
            right.drop_last(),
            references.drop_last(),
        );
        assert(same_axes(left[left.len() - 1].label, right[left.len() - 1].label));
    }
}

/// The event of a call holds the digests of its tool and its arguments, and nothing else of
/// them.
pub proof fn call_events_hold_only_digests(
    trace_id: Seq<char>,
    left: InvocationView,
    right: InvocationView,
    references: Seq<Seq<char>>,
)
    requires
        left.id == right.id,
        left.blocked == right.blocked,
        left.policy == right.policy,
        same_axes(left.label, right.label),
        json_digest_of(JsonView::Text(left.name)) == json_digest_of(JsonView::Text(right.name)),
        json_digest_of(JsonView::Object(left.arguments)) == json_digest_of(
            JsonView::Object(right.arguments),
        ),
    ensures
        call_event(trace_id, left, references) == call_event(trace_id, right, references),
{
}

/// A quarantined model is given its prompt and its variables, and nothing else of the call or
/// the session.
pub proof fn quarantine_sees_only_its_inputs(left: InvocationView, right: InvocationView)
    requires
        left.variables == right.variables,
        lookup(left.arguments, "prompt"@) == lookup(right.arguments, "prompt"@),
        quarantine_of(left, false) is Some,
        quarantine_of(right, false) is Some,
    ensures
        quarantine_of(left, false) == quarantine_of(right, false),
{
}

/// A model that brings a context of its own is never asked.
pub proof fn no_quarantine_with_own_context(invocation: InvocationView)
    ensures
        quarantine_of(invocation, true) is None,
{
}

} // verus!
