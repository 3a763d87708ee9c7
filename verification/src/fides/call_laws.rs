//! What a check of a call comes to: when it is admitted, with which arguments, under which label,
//! whether it is blocked, and what is logged of it.
use crate::digest::json_digest_of;
use crate::fides::content_label::{Confidentiality, ContentLabelView, Integrity};
use crate::fides::expansion_laws::{
    entries_are_expanded_by_themselves, one_argument_is_expanded_as_its_value,
    plain_arguments_are_passed_on, plain_within, references_are_those_forwarded,
    values_stand_for_variables_in_two_ways,
};
use crate::fides::invocation::InvocationView;
use crate::fides::label_laws::{later_metadata_wins, written_confidentiality, written_integrity};
use crate::fides::laws::{forwarding_text, forwards};
use crate::fides::message::{CallView, ToolView};
use crate::fides::quarantine::{quarantine_of, QUARANTINE_SYSTEM};
use crate::fides::references::{
    expanded, expanded_entries, joined_labels, resolved, Variables, INSPECT_VARIABLE,
    QUARANTINED_LLM,
};
use crate::fides::session::VariableView;
use crate::fides::tracker::TrackerView;
use crate::json::{json_text, lookup, EntriesView, JsonView};
use crate::text::has_prefix;
use vstd::prelude::*;

verus! {

/// The variables that a session holds; none where it is not tracked.
pub open spec fn held(tracker: TrackerView, session_id: Seq<char>) -> Variables {
    if tracker.sessions.contains_key(session_id) {
        tracker.sessions[session_id].variables
    } else {
        Map::empty()
    }
}

proof fn lemma_own_tools()
    ensures
        INSPECT_VARIABLE@ != QUARANTINED_LLM@,
{
    reveal_strlit("fides__inspect_variable");
    reveal_strlit("fides__quarantined_llm");
    assert(INSPECT_VARIABLE@.len() == 23);
    assert(QUARANTINED_LLM@.len() == 22);
}

/// Whether a call of the inspection tool is well-formed: it names one variable that is held, and
/// has no other argument than a reason.
pub open spec fn inspects(
    variables: Variables,
    arguments: EntriesView,
    reference: Seq<char>,
) -> bool {
    &&& lookup(arguments, "variable_id"@) == Some(JsonView::Text(reference))
    &&& variables.contains_key(reference)
    &&& forall|i: int|
        0 <= i < arguments.len() ==> (#[trigger] arguments[i]).0 == "variable_id"@
            || arguments[i].0 == "reason"@
}

/// Whether a call of the quarantine tool is well-formed: it has a prompt and names one to
/// thirty-two variables that are held, and has no other argument.
pub open spec fn quarantines(
    variables: Variables,
    arguments: EntriesView,
    prompt: Seq<char>,
    references: Seq<Seq<char>>,
) -> bool {
    &&& lookup(arguments, "prompt"@) == Some(JsonView::Text(prompt))
    &&& lookup(arguments, "variable_ids"@) matches Some(JsonView::Array(items)) && {
        &&& items.len() == references.len()
        &&& forall|i: int|
            0 <= i < items.len() ==> #[trigger] items[i] == JsonView::Text(references[i])
    }
    &&& 1 <= references.len() <= 32
    &&& forall|i: int|
        0 <= i < references.len() ==> variables.contains_key(#[trigger] references[i])
    &&& forall|i: int|
        0 <= i < arguments.len() ==> (#[trigger] arguments[i]).0 == "prompt"@ || arguments[i].0
            == "variable_ids"@
}

/// A call of the inspection tool is taken exactly where it is well-formed, and works on the
/// payload of the variable that it names.
pub proof fn inspection_takes_one_variable(variables: Variables, arguments: EntriesView)
    ensures
        resolved(variables, INSPECT_VARIABLE@, arguments) is Some <==> exists|
            reference: Seq<char>,
        | #[trigger]
            inspects(variables, arguments, reference),
        forall|reference: Seq<char>| #[trigger]
            inspects(variables, arguments, reference) ==> {
                let resolution = resolved(variables, INSPECT_VARIABLE@, arguments)->Some_0;
                &&& resolution.arguments == arguments
                &&& resolution.references == seq![reference]
                &&& resolution.variables == seq![variables[reference].payload]
            },
{
    lemma_own_tools();
    assert forall|reference: Seq<char>| #[trigger]
        inspects(variables, arguments, reference) implies {
        let resolution = resolved(variables, INSPECT_VARIABLE@, arguments)->Some_0;
        &&& resolved(variables, INSPECT_VARIABLE@, arguments) is Some
        &&& resolution.arguments == arguments
        &&& resolution.references == seq![reference]
        &&& resolution.variables == seq![variables[reference].payload]
    } by {
        let resolution = resolved(variables, INSPECT_VARIABLE@, arguments)->Some_0;
        assert(resolution.variables =~= seq![variables[reference].payload]);
    }
    if resolved(variables, INSPECT_VARIABLE@, arguments) is Some {
        let resolution = resolved(variables, INSPECT_VARIABLE@, arguments)->Some_0;
        let reference = resolution.references[0];
        assert(variables.contains_key(resolution.references[0]));
        assert(inspects(variables, arguments, reference));
    }
}

/// A call of the quarantine tool is taken exactly where it is well-formed, and works on the
/// payloads of the variables that it names, in order.
pub proof fn quarantine_takes_the_variables_it_names(
    variables: Variables,
    arguments: EntriesView,
)
    ensures
        resolved(variables, QUARANTINED_LLM@, arguments) is Some <==> exists|
            prompt: Seq<char>,
            references: Seq<Seq<char>>,
        | #[trigger]
            quarantines(variables, arguments, prompt, references),
        forall|prompt: Seq<char>, references: Seq<Seq<char>>| #[trigger]
            quarantines(variables, arguments, prompt, references) ==> {
                let resolution = resolved(variables, QUARANTINED_LLM@, arguments)->Some_0;
                &&& resolution.arguments == arguments
                &&& resolution.references == references
                &&& resolution.variables.len() == references.len()
                &&& forall|i: int|
                    0 <= i < references.len() ==> #[trigger] resolution.variables[i]
                        == variables[references[i]].payload
            },
{
    lemma_own_tools();
    assert forall|prompt: Seq<char>, references: Seq<Seq<char>>| #[trigger]
        quarantines(variables, arguments, prompt, references) implies {
        let resolution = resolved(variables, QUARANTINED_LLM@, arguments)->Some_0;
        &&& resolved(variables, QUARANTINED_LLM@, arguments) is Some
        &&& resolution.arguments == arguments
        &&& resolution.references == references
        &&& resolution.variables.len() == references.len()
        &&& forall|i: int|
            0 <= i < references.len() ==> #[trigger] resolution.variables[i]
                == variables[references[i]].payload
    } by {
        let items = lookup(arguments, "variable_ids"@)->Some_0->Array_0;
        let texts = items.map_values(|item: JsonView| item->Text_0);
        assert forall|i: int| 0 <= i < items.len() implies (#[trigger] texts[i]) == references[i]
            && items[i] is Text by {
            assert(items[i] == JsonView::Text(references[i]));
        }
        assert(texts =~= references);
    }
    if resolved(variables, QUARANTINED_LLM@, arguments) is Some {
        let resolution = resolved(variables, QUARANTINED_LLM@, arguments)->Some_0;
        let prompt = lookup(arguments, "prompt"@)->Some_0->Text_0;
        let items = lookup(arguments, "variable_ids"@)->Some_0->Array_0;
        assert(forall|i: int|
            0 <= i < items.len() ==> #[trigger] items[i] == JsonView::Text(
                resolution.references[i],
            ));
        assert(quarantines(variables, arguments, prompt, resolution.references));
    }
}

/// A call of any other tool is taken exactly where each of its arguments can be expanded; each
/// argument is then passed on under its key as what its value becomes alone.
pub proof fn other_tools_are_given_their_arguments(
    variables: Variables,
    name: Seq<char>,
    arguments: EntriesView,
)
    requires
        name != INSPECT_VARIABLE@,
        name != QUARANTINED_LLM@,
    ensures
        resolved(variables, name, arguments) is Some <==> forall|i: int|
            0 <= i < arguments.len() ==> expanded(variables, (#[trigger] arguments[i]).1, 0)
                is Some,
        resolved(variables, name, arguments) matches Some(resolution) ==> {
            &&& resolution.arguments.len() == arguments.len()
            &&& forall|i: int|
                0 <= i < arguments.len() ==> {
                    &&& resolution.arguments[i].0 == (#[trigger] arguments[i]).0
                    &&& expanded(variables, arguments[i].1, 0)->Some_0.0
                        == resolution.arguments[i].1
                }
            &&& resolution.variables.len() == 0
            &&& Some((resolution.arguments, resolution.references)) == expanded_entries(
                variables,
                arguments,
                0,
            )
            &&& forall|reference: Seq<char>|
                resolution.references.contains(reference) <==> exists|i: int|
                    0 <= i < arguments.len() && forwards((#[trigger] arguments[i]).1, reference)
        },
{
    entries_are_expanded_by_themselves(variables, arguments, 0);
    if let Some((_, references)) = expanded_entries(variables, arguments, 0) {
        assert forall|reference: Seq<char>|
            references.contains(reference) <==> exists|i: int|
                0 <= i < arguments.len() && forwards((#[trigger] arguments[i]).1, reference) by {
            references_are_those_forwarded(variables, arguments, reference);
        }
    }
}

/// A call is admitted exactly where it calls the tool that it is checked against, its session is
/// tracked or one of fewer than a thousand and twenty-four, and its arguments can be taken. A
/// call that is not admitted logs nothing and changes no session.
pub proof fn calls_are_admitted_exactly_when(
    tracker: TrackerView,
    session_id: Seq<char>,
    tool: ToolView,
    call: CallView,
    trace_id: Seq<char>,
    id: Seq<char>,
)
    ensures
        ({
            let begun = tracker.begin(session_id, tool, call, trace_id, id);
            let known = tracker.sessions.contains_key(session_id);
            let looked_at = tool.name == call.name && (known || tracker.sessions.len() < 1024);
            &&& begun.1 is Some <==> looked_at && resolved(
                held(tracker, session_id),
                call.name,
                call.arguments,
            ) is Some
            &&& begun.1 is None ==> begun.0.pending == tracker.pending
            &&& !looked_at ==> begun.0 == tracker
            &&& known ==> begun.0.sessions == tracker.sessions
            &&& looked_at && !known ==> {
                &&& begun.0.sessions.contains_key(session_id)
                &&& begun.0.sessions[session_id].label == tracker.config.initial_label
                &&& begun.0.sessions[session_id].trace_id == trace_id
                &&& begun.0.sessions[session_id].stored_bytes == 0
                &&& held(begun.0, session_id) == Map::<Seq<char>, VariableView>::empty()
            }
            &&& begun.0.config == tracker.config
        }),
{
}

/// An invocation is named as it was to be named, and is of the session and the tool that were
/// called. Its arguments, its variables and its policy are those that were found for the call.
pub proof fn invocations_are_of_their_call(
    tracker: TrackerView,
    session_id: Seq<char>,
    tool: ToolView,
    call: CallView,
    trace_id: Seq<char>,
    id: Seq<char>,
)
    ensures
        tracker.begin(session_id, tool, call, trace_id, id).1 matches Some(invocation) ==> {
            let resolution = resolved(
                held(tracker, session_id),
                call.name,
                call.arguments,
            )->Some_0;
            let own = call.name == INSPECT_VARIABLE@ || call.name == QUARANTINED_LLM@;
            let configured = tracker.config.policy(tool);
            &&& invocation.id == id
            &&& invocation.session_id == session_id
            &&& invocation.name == call.name
            &&& invocation.arguments == resolution.arguments
            &&& invocation.variables == resolution.variables
            &&& !own ==> invocation.policy == configured
            &&& own ==> {
                &&& invocation.policy.source_label == configured.source_label
                &&& invocation.policy.accepts_untrusted
                &&& invocation.policy.max_allowed_confidentiality is None
                &&& !invocation.policy.trust_result_labels
            }
        },
{
}

/// Each argument that forwards a variable by its bracketed reference is given to the tool as the
/// variable's payload, and every argument that forwards none, however it is nested, as it is:
/// whatever the other arguments are.
pub proof fn forwarded_arguments_are_replaced(
    tracker: TrackerView,
    session_id: Seq<char>,
    tool: ToolView,
    call: CallView,
    trace_id: Seq<char>,
    id: Seq<char>,
    i: int,
    reference: Seq<char>,
)
    requires
        call.name != INSPECT_VARIABLE@,
        call.name != QUARANTINED_LLM@,
        0 <= i < call.arguments.len(),
    ensures
        tracker.begin(session_id, tool, call, trace_id, id).1 matches Some(invocation) ==> {
            let value = call.arguments[i].1;
            &&& invocation.arguments.len() == call.arguments.len()
            &&& invocation.arguments[i].0 == call.arguments[i].0
            &&& value == forwarding_text(reference) && has_prefix(reference, "var_"@)
                ==> {
                &&& held(tracker, session_id).contains_key(reference)
                &&& invocation.arguments[i].1 == held(tracker, session_id)[reference].payload
            }
            &&& plain_within(value, 32) ==> invocation.arguments[i].1
                == value
        },
{
    let variables = held(tracker, session_id);
    let value = call.arguments[i].1;
    other_tools_are_given_their_arguments(variables, call.name, call.arguments);
    values_stand_for_variables_in_two_ways(value, reference);
    if tracker.begin(session_id, tool, call, trace_id, id).1 is Some {
        assert(expanded(variables, call.arguments[i].1, 0) is Some);
        if plain_within(value, 32) {
            let alone = seq![call.arguments[i]];
            assert(alone[0].1 == value);
            plain_arguments_are_passed_on(variables, alone);
            one_argument_is_expanded_as_its_value(
                variables,
                call.arguments[i].0,
                value,
                0,
            );
            assert(alone == seq![(call.arguments[i].0, value)]);
            assert(expanded_entries(variables, alone, 0)->Some_0.0[0] == alone[0]);
        }
    }
}

proof fn lemma_joined_exactly(
    variables: Variables,
    start: ContentLabelView,
    references: Seq<Seq<char>>,
)
    ensures
        ({
            let label = joined_labels(variables, start, references);
            &&& label.integrity == Integrity::Trusted <==> start.integrity == Integrity::Trusted
                && forall|i: int|
                0 <= i < references.len() ==> variables[#[trigger] references[i]].label.integrity
                    == Integrity::Trusted
            &&& label.confidentiality.rank() >= start.confidentiality.rank()
            &&& forall|i: int|
                0 <= i < references.len() ==> label.confidentiality.rank()
                    >= variables[#[trigger] references[i]].label.confidentiality.rank()
            &&& label.confidentiality == start.confidentiality || exists|i: int|
                0 <= i < references.len() && label.confidentiality
                    == variables[#[trigger] references[i]].label.confidentiality
        }),
    decreases references.len(),
{
    if references.len() > 0 {
        let rest = references.drop_last();
        lemma_joined_exactly(variables, start, rest);
        assert(forall|i: int| 0 <= i < rest.len() ==> #[trigger] references[i] == rest[i]);
        assert(forall|i: int| 0 <= i < rest.len() ==> references[i] == #[trigger] rest[i]);
        assert(references[references.len() - 1] == references.last());
    }
}

/// A call is checked under the label of its session and of the variables in it, and under nothing
/// more: it is trusted exactly where all of them are, and just as confidential as the most
/// confidential of them.
pub proof fn calls_are_checked_under_their_own_label(
    tracker: TrackerView,
    session_id: Seq<char>,
    tool: ToolView,
    call: CallView,
    trace_id: Seq<char>,
    id: Seq<char>,
)
    ensures
        tracker.begin(session_id, tool, call, trace_id, id).1 matches Some(invocation) ==> {
            let variables = held(tracker, session_id);
            let context = tracker.context_label(session_id);
            let references = resolved(variables, call.name, call.arguments)->Some_0.references;
            let label = invocation.label;
            &&& label.integrity == Integrity::Trusted <==> context.integrity == Integrity::Trusted
                && forall|i: int|
                0 <= i < references.len() ==> variables[#[trigger] references[i]].label.integrity
                    == Integrity::Trusted
            &&& label.confidentiality.rank() >= context.confidentiality.rank()
            &&& forall|i: int|
                0 <= i < references.len() ==> label.confidentiality.rank()
                    >= variables[#[trigger] references[i]].label.confidentiality.rank()
            &&& label.confidentiality == context.confidentiality || exists|i: int|
                0 <= i < references.len() && label.confidentiality
                    == variables[#[trigger] references[i]].label.confidentiality
            &&& references.len() == 0 ==> label == context
        },
{
    let variables = held(tracker, session_id);
    if let Some(resolution) = resolved(variables, call.name, call.arguments) {
        lemma_joined_exactly(
            variables,
            tracker.context_label(session_id),
            resolution.references,
        );
    }
}

/// A tool that is given a variable, at whatever depth of its arguments, is checked under a label
/// as restrictive as the variable's; one that is given none is checked under that of its session.
pub proof fn forwarding_carries_the_label(
    tracker: TrackerView,
    session_id: Seq<char>,
    tool: ToolView,
    call: CallView,
    trace_id: Seq<char>,
    id: Seq<char>,
    i: int,
    reference: Seq<char>,
)
    requires
        call.name != INSPECT_VARIABLE@,
        call.name != QUARANTINED_LLM@,
    ensures
        tracker.begin(session_id, tool, call, trace_id, id).1 matches Some(invocation) ==> {
            &&& 0 <= i < call.arguments.len() && forwards(call.arguments[i].1, reference)
                ==> invocation.label.covers(held(tracker, session_id)[reference].label)
            &&& (forall|k: int, named: Seq<char>|
                0 <= k < call.arguments.len() ==> !#[trigger] forwards(
                    call.arguments[k].1,
                    named,
                )) ==> invocation.label == tracker.context_label(session_id)
        },
{
    let variables = held(tracker, session_id);
    calls_are_checked_under_their_own_label(tracker, session_id, tool, call, trace_id, id);
    if let Some(invocation) = tracker.begin(session_id, tool, call, trace_id, id).1 {
        other_tools_are_given_their_arguments(variables, call.name, call.arguments);
        let references = resolved(variables, call.name, call.arguments)->Some_0.references;
        if 0 <= i < call.arguments.len() && forwards(call.arguments[i].1, reference) {
            assert(references.contains(reference));
            let k = references.index_of(reference);
            assert(references[k] == reference);
            if variables[reference].label.integrity == Integrity::Untrusted {
                assert(variables[references[k]].label.integrity != Integrity::Trusted);
            }
        }
        if forall|k: int, named: Seq<char>|
            0 <= k < call.arguments.len() ==> !#[trigger] forwards(call.arguments[k].1, named) {
            if references.len() > 0 {
                assert(references.contains(references[0]));
                let k = choose|k: int|
                    0 <= k < call.arguments.len() && forwards(
                        (#[trigger] call.arguments[k]).1,
                        references[0],
                    );
                assert(!forwards(call.arguments[k].1, references[0]));
            }
        }
    }
}

/// With blocking on, a call of a tool that is not the middleware's own is blocked exactly where
/// its label is untrusted and the tool's policy does not accept that, or where its label is more
/// confidential than the policy's maximum. Without blocking none is, and a call of the
/// middleware's own tools never is.
pub proof fn violations_are_blocked(
    tracker: TrackerView,
    session_id: Seq<char>,
    tool: ToolView,
    call: CallView,
    trace_id: Seq<char>,
    id: Seq<char>,
)
    ensures
        tracker.begin(session_id, tool, call, trace_id, id).1 matches Some(invocation) ==> {
            let own = call.name == INSPECT_VARIABLE@ || call.name == QUARANTINED_LLM@;
            let policy = tracker.config.policy(tool);
            let label = invocation.label;
            invocation.blocked <==> tracker.config.block_on_violation && !own && {
                ||| label.integrity == Integrity::Untrusted && !policy.accepts_untrusted
                ||| policy.max_allowed_confidentiality == Some(Confidentiality::Public)
                    && label.confidentiality != Confidentiality::Public
                ||| policy.max_allowed_confidentiality == Some(Confidentiality::Private)
                    && label.confidentiality == Confidentiality::UserIdentity
            }
        },
{
}

/// Whether an event has exactly the given entries, in whatever order.
pub open spec fn has_entries(event: JsonView, entries: Seq<(Seq<char>, JsonView)>) -> bool {
    &&& event is Object
    &&& event->Object_0.len() == entries.len()
    &&& forall|i: int| 0 <= i < entries.len() ==> event->Object_0.contains(#[trigger] entries[i])
}

/// How the axes of a label are written in an event.
pub open spec fn written_axes(label: ContentLabelView) -> JsonView {
    JsonView::Object(
        seq![
            ("confidentiality"@, written_confidentiality(label.confidentiality)),
            ("integrity"@, written_integrity(label.integrity)),
        ],
    )
}

/// One event is logged of each call that is admitted. It names the session and the call, tells
/// the label and each violation of the policy on its own, whether the call is allowed and
/// whether it is blocked, and which variables it was given; of the tool and the arguments it
/// holds the digests alone.
#[verifier::spinoff_prover]
#[verifier::rlimit(60)]
pub proof fn admitted_calls_are_logged(
    tracker: TrackerView,
    session_id: Seq<char>,
    tool: ToolView,
    call: CallView,
    trace_id: Seq<char>,
    id: Seq<char>,
)
    requires
        !tracker.log_failed,
    ensures
        tracker.begin(session_id, tool, call, trace_id, id).1 matches Some(invocation) ==> {
            let after = tracker.begin(session_id, tool, call, trace_id, id).0;
            let event = after.pending.last();
            let label = invocation.label;
            let policy = invocation.policy;
            let references = resolved(
                held(tracker, session_id),
                call.name,
                call.arguments,
            )->Some_0.references;
            let integrity = label.integrity == Integrity::Untrusted && !policy.accepts_untrusted;
            let confidentiality = policy.max_allowed_confidentiality == Some(
                Confidentiality::Public,
            ) && label.confidentiality != Confidentiality::Public
                || policy.max_allowed_confidentiality == Some(Confidentiality::Private)
                && label.confidentiality == Confidentiality::UserIdentity;
            &&& after.pending == tracker.pending.push(event)
            &&& has_entries(
                event,
                seq![
                    ("event"@, JsonView::Text("tool_call"@)),
                    ("version"@, JsonView::Number("1"@)),
                    ("session"@, JsonView::Text(after.sessions[session_id].trace_id)),
                    ("invocation"@, JsonView::Text(id)),
                    ("tool_digest"@, JsonView::Text(json_digest_of(JsonView::Text(call.name)))),
                    (
                        "arguments_digest"@,
                        JsonView::Text(json_digest_of(JsonView::Object(invocation.arguments))),
                    ),
                    ("label"@, written_axes(label)),
                    (
                        "input_refs"@,
                        JsonView::Array(
                            Seq::new(
                                references.len(),
                                |i: int| JsonView::Text(references[i]),
                            ),
                        ),
                    ),
                    ("integrity_violation"@, JsonView::Bool(integrity)),
                    ("confidentiality_violation"@, JsonView::Bool(confidentiality)),
                    ("would_allow"@, JsonView::Bool(!integrity && !confidentiality)),
                    ("blocked"@, JsonView::Bool(invocation.blocked)),
                ],
            )
        },
{
    if let Some(invocation) = tracker.begin(session_id, tool, call, trace_id, id).1 {
        let after = tracker.begin(session_id, tool, call, trace_id, id).0;
        let event = after.pending.last();
        let label = invocation.label;
        let references = resolved(
            held(tracker, session_id),
            call.name,
            call.arguments,
        )->Some_0.references;
        assert(after.pending =~= tracker.pending.push(event));
        let fields = event->Object_0;
        assert(label.axes_entries() =~= seq![
            ("confidentiality"@, written_confidentiality(label.confidentiality)),
            ("integrity"@, written_integrity(label.integrity)),
        ]);
        assert(fields[4].1->Array_0 =~= Seq::new(
            references.len(),
            |i: int| JsonView::Text(references[i]),
        ));
        assert(fields.contains(fields[0]));
        assert(fields.contains(fields[1]));
        assert(fields.contains(fields[2]));
        assert(fields.contains(fields[3]));
        assert(fields.contains(fields[4]));
        assert(fields.contains(fields[5]));
        assert(fields.contains(fields[6]));
        assert(fields.contains(fields[7]));
        assert(fields.contains(fields[8]));
        assert(fields.contains(fields[9]));
        assert(fields.contains(fields[10]));
        assert(fields.contains(fields[11]));
    }
}

/// The quarantined model that a call of the quarantine tool leads to is asked the prompt of the
/// call, and is given as data the payloads that the session holds under the references that the
/// call names, each in its place: nothing else, and no fewer.
pub proof fn quarantined_models_are_given_what_is_named(
    tracker: TrackerView,
    session_id: Seq<char>,
    tool: ToolView,
    call: CallView,
    trace_id: Seq<char>,
    id: Seq<char>,
    prompt: Seq<char>,
    references: Seq<Seq<char>>,
)
    requires
        tool.name == QUARANTINED_LLM@,
        call.name == QUARANTINED_LLM@,
        tracker.sessions.contains_key(session_id),
        quarantines(held(tracker, session_id), call.arguments, prompt, references),
    ensures
        tracker.begin(session_id, tool, call, trace_id, id).1 matches Some(invocation) && {
            let payloads = Seq::new(
                references.len(),
                |i: int| held(tracker, session_id)[references[i]].payload,
            );
            let asked = invocation.quarantine_prompt();
            &&& !invocation.blocked
            &&& asked == JsonView::Object(
                seq![
                    ("data"@, JsonView::Array(payloads)),
                    ("request"@, JsonView::Text(prompt)),
                ],
            )
            &&& quarantine_of(invocation, false) matches Some(request) && {
                &&& request.system == QUARANTINE_SYSTEM@
                &&& request.prompt == json_text(asked)
            }
        },
{
    let variables = held(tracker, session_id);
    quarantine_takes_the_variables_it_names(variables, call.arguments);
    let invocation = tracker.begin(session_id, tool, call, trace_id, id).1->Some_0;
    let payloads = Seq::new(references.len(), |i: int| variables[references[i]].payload);
    assert(invocation.variables =~= payloads);
    assert(invocation.quarantine_prompt()->Object_0 =~= seq![
        ("data"@, JsonView::Array(payloads)),
        ("request"@, JsonView::Text(prompt)),
    ]);
}

/// A model is asked only for a call of the quarantine tool that is not blocked, and only where it
/// brings no context of its own.
pub proof fn models_are_asked_only_in_quarantine(
    invocation: InvocationView,
    manages_own_context: bool,
)
    ensures
        quarantine_of(invocation, manages_own_context) is Some <==> invocation.name
            == QUARANTINED_LLM@ && !invocation.blocked && !manages_own_context,
{
}

proof fn lemma_joined_metadata(
    variables: Variables,
    start: ContentLabelView,
    references: Seq<Seq<char>>,
    key: Seq<char>,
)
    ensures
        ({
            let metadata = joined_labels(variables, start, references).metadata;
            &&& (forall|i: int|
                0 <= i < references.len() ==> lookup(
                    variables[#[trigger] references[i]].label.metadata,
                    key,
                ) is None) ==> lookup(metadata, key) == lookup(start.metadata, key)
            &&& forall|i: int|
                0 <= i < references.len() && lookup(
                    variables[#[trigger] references[i]].label.metadata,
                    key,
                ) is Some && (forall|j: int|
                    i < j < references.len() ==> lookup(
                        variables[#[trigger] references[j]].label.metadata,
                        key,
                    ) is None) ==> lookup(metadata, key) == lookup(
                    variables[references[i]].label.metadata,
                    key,
                )
        }),
    decreases references.len(),
{
    if references.len() > 0 {
        let rest = references.drop_last();
        lemma_joined_metadata(variables, start, rest, key);
        let last = variables[references.last()].label;
        later_metadata_wins(joined_labels(variables, start, rest), last, key);
        assert(forall|i: int| 0 <= i < rest.len() ==> #[trigger] references[i] == rest[i]);
        assert(forall|i: int| 0 <= i < rest.len() ==> references[i] == #[trigger] rest[i]);
        let n = references.len() - 1;
        assert(references[n] == references.last());
        let metadata = joined_labels(variables, start, references).metadata;
        assert forall|i: int|
            0 <= i < references.len() && lookup(
                variables[#[trigger] references[i]].label.metadata,
                key,
            ) is Some && (forall|j: int|
                i < j < references.len() ==> lookup(
                    variables[#[trigger] references[j]].label.metadata,
                    key,
                ) is None) implies lookup(metadata, key) == lookup(
            variables[references[i]].label.metadata,
            key,
        ) by {
            if i < n {
                assert(lookup(variables[references[n]].label.metadata, key) is None);
                assert(rest[i] == references[i]);
                assert forall|j: int| i < j < rest.len() implies lookup(
                    variables[#[trigger] rest[j]].label.metadata,
                    key,
                ) is None by {
                    assert(references[j] == rest[j]);
                }
            }
        }
        if forall|i: int|
            0 <= i < references.len() ==> lookup(
                variables[#[trigger] references[i]].label.metadata,
                key,
            ) is None {
            assert forall|i: int| 0 <= i < rest.len() implies lookup(
                variables[#[trigger] rest[i]].label.metadata,
                key,
            ) is None by {
                assert(references[i] == rest[i]);
            }
            assert(lookup(variables[references[n]].label.metadata, key) is None);
        }
    }
}

/// The label of a call carries the metadata of its session and of the variables in it; under a
/// key that several have, that of the variable that comes last.
#[verifier::spinoff_prover]
#[verifier::rlimit(60)]
pub proof fn calls_carry_the_metadata_of_variables(
    tracker: TrackerView,
    session_id: Seq<char>,
    tool: ToolView,
    call: CallView,
    trace_id: Seq<char>,
    id: Seq<char>,
    key: Seq<char>,
    i: int,
)
    ensures
        tracker.begin(session_id, tool, call, trace_id, id).1 matches Some(invocation) ==> {
            let variables = held(tracker, session_id);
            let references = resolved(variables, call.name, call.arguments)->Some_0.references;
            &&& (forall|k: int|
                0 <= k < references.len() ==> lookup(
                    variables[#[trigger] references[k]].label.metadata,
                    key,
                ) is None) ==> lookup(invocation.label.metadata, key) == lookup(
                tracker.context_label(session_id).metadata,
                key,
            )
            &&& 0 <= i < references.len() && lookup(variables[references[i]].label.metadata, key)
                is Some && (forall|j: int|
                i < j < references.len() ==> lookup(
                    variables[#[trigger] references[j]].label.metadata,
                    key,
                ) is None) ==> lookup(invocation.label.metadata, key) == lookup(
                variables[references[i]].label.metadata,
                key,
            )
        },
{
    let variables = held(tracker, session_id);
    if let Some(resolution) = resolved(variables, call.name, call.arguments) {
        lemma_joined_metadata(
            variables,
            tracker.context_label(session_id),
            resolution.references,
            key,
        );
    }
}

/// The label of a session that is not tracked is the initial one; that of one that is, its own.
pub proof fn sessions_start_at_the_initial_label(tracker: TrackerView, session_id: Seq<char>)
    ensures
        tracker.sessions.contains_key(session_id) ==> tracker.context_label(session_id)
            == tracker.sessions[session_id].label,
        !tracker.sessions.contains_key(session_id) ==> tracker.context_label(session_id)
            == tracker.config.initial_label,
{
}

} // verus!
