//! What an observer of a provider records and remembers.
use crate::digest::{digest_of, text_encoding};
use crate::label::LabelView;
use crate::provider::{
    gather_messages, gather_responses, gather_schemas, lemma_lists_rotate, messages_drawn_for,
    observe_all, request_for, source_in, CallIds, ContentView, Gathering, LinkView, MessageIds,
    MessageView, ModelCallView, ObserverView, RequestName, SourcePolicyView, UNCLASSIFIED_EPOCH,
};
use crate::provider_flow::{
    call_records, exposure_records, input_records, lemma_call_records, lemma_exposures,
    message_records, response_records,
};
use crate::provider_laws::lemma_enter;
use crate::trace::{
    output_record, source_record, tool_result_record, ContextView, DependenciesView, Exposure,
    Operation, RecordView, TraceView, ValueView,
};
use crate::trace_laws::record_all;
use vstd::prelude::*;

verus! {

/// A source has the label that the policy gives for the digest of its bytes. It is unknown where
/// the policy gives none, or where it has no bytes.
pub proof fn sources_are_labeled_by_their_bytes(policy: SourcePolicyView, bytes: Seq<u8>)
    ensures
        policy.sources.contains_key(digest_of(bytes)) ==> policy.label(Some(bytes))
            == policy.sources[digest_of(bytes)],
        !policy.sources.contains_key(digest_of(bytes)) ==> policy.label(Some(bytes))
            == LabelView::Unknown,
        policy.label(None) == LabelView::Unknown,
{
}

/// The first call of a session enters the domain that the policy gives for it, or one of which
/// nothing is known. Where sixty-four contexts are remembered, what the session retains is taken
/// for unknown, whatever the policy says. A session that has a context keeps it.
pub proof fn contexts_start_in_their_domain(
    observer: ObserverView,
    session_id: Seq<char>,
    id: Seq<char>,
)
    requires
        observer.bounded(),
    ensures
        ({
            let entered = observer.enter(session_id, id);
            let context = entered.sessions[session_id];
            let given = observer.policy.domains.contains_key(session_id);
            let domain = observer.policy.domains[session_id];
            let crowded = observer.session_order.len() >= 64;
            &&& entered.sessions.contains_key(session_id)
            &&& observer.sessions.contains_key(session_id) ==> entered == observer
            &&& !observer.sessions.contains_key(session_id) ==> {
                &&& context.domain.audience == if given {
                    domain.audience.normalized()
                } else {
                    LabelView::Unknown
                }
                &&& context.domain.retained_context == if given && !crowded {
                    domain.retained_context.normalized()
                } else {
                    LabelView::Unknown
                }
                &&& context.domain.policy_epoch == if given {
                    domain.policy_epoch
                } else {
                    UNCLASSIFIED_EPOCH@
                }
                &&& context.current.label == context.domain.audience.join(
                    context.domain.retained_context,
                )
                &&& context.current.reference == id
                &&& entered.session_order.last() == session_id
                &&& !observer.trace.logging_failed ==> {
                    let record = entered.trace.pending.last();
                    &&& entered.trace.pending.drop_last() == observer.trace.pending
                    &&& record.operation == Operation::EnterContext
                    &&& record.id == id
                    &&& record.label == context.current.label
                    &&& record.domain == Some(context.domain)
                }
            }
            &&& entered.policy == observer.policy
            &&& entered.requests == observer.requests
        }),
{
    lemma_enter(observer, session_id, id);
    if !observer.sessions.contains_key(session_id) && !observer.trace.logging_failed {
        let entered = observer.enter(session_id, id);
        assert(entered.trace.pending.drop_last() =~= observer.trace.pending);
    }
}

/// Entering a session forgets at most the oldest one, and only where sixty-four are remembered;
/// every other context stays as it was.
pub proof fn entering_forgets_only_the_oldest(
    observer: ObserverView,
    session_id: Seq<char>,
    id: Seq<char>,
    other: Seq<char>,
)
    requires
        observer.bounded(),
        observer.sessions.contains_key(other),
        other != session_id,
    ensures
        ({
            let entered = observer.enter(session_id, id);
            let forgotten = !observer.sessions.contains_key(session_id)
                && observer.session_order.len() == 64 && observer.session_order[0] == other;
            &&& entered.sessions.contains_key(other) <==> !forgotten
            &&& !forgotten ==> entered.sessions[other] == observer.sessions[other]
        }),
{
    if !observer.sessions.contains_key(session_id) && observer.session_order.len() == 64 {
        assert(observer.session_order.push(session_id)[0] == observer.session_order[0]);
    }
}

/// The names of the results of the responses in a message, in order.
pub open spec fn result_names(
    content: Seq<ContentView>,
    ids: Seq<(Seq<char>, Seq<char>)>,
) -> Seq<Seq<char>>
    decreases content.len(),
{
    if content.len() == 0 {
        Seq::empty()
    } else if content.last() is ToolResponse {
        result_names(content.drop_last(), ids.drop_last()).push(ids.last().1)
    } else {
        result_names(content.drop_last(), ids.drop_last())
    }
}

/// The names of the results of the responses in some messages, in order.
pub open spec fn all_result_names(
    messages: Seq<MessageView>,
    ids: Seq<MessageIds>,
) -> Seq<Seq<char>>
    decreases messages.len(),
{
    if messages.len() == 0 {
        Seq::empty()
    } else {
        all_result_names(messages.drop_last(), ids.drop_last()) + result_names(
            messages.last().content,
            ids.last().content,
        )
    }
}

proof fn lemma_schema_roles(
    start: Gathering,
    policy: SourcePolicyView,
    tools: Seq<Option<Seq<u8>>>,
    ids: Seq<Seq<char>>,
)
    requires
        ids.len() == tools.len(),
    ensures
        gather_schemas(start, policy, tools, ids).dependencies == (DependenciesView {
            schemas: start.dependencies.schemas + ids,
            ..start.dependencies
        }),
    decreases tools.len(),
{
    if tools.len() == 0 {
        assert(start.dependencies.schemas + ids =~= start.dependencies.schemas);
    } else {
        lemma_schema_roles(start, policy, tools.drop_last(), ids.drop_last());
        assert((start.dependencies.schemas + ids.drop_last()).push(ids.last())
            =~= start.dependencies.schemas + ids);
    }
}

proof fn lemma_response_roles(
    start: Gathering,
    policy: SourcePolicyView,
    requests: Map<RequestName, LinkView>,
    session_id: Seq<char>,
    content: Seq<ContentView>,
    ids: Seq<(Seq<char>, Seq<char>)>,
)
    ensures
        gather_responses(start, policy, requests, session_id, content, ids).dependencies == (
        DependenciesView {
            inputs: start.dependencies.inputs + result_names(content, ids),
            ..start.dependencies
        }),
    decreases content.len(),
{
    if content.len() == 0 {
        assert(start.dependencies.inputs + result_names(content, ids)
            =~= start.dependencies.inputs);
    } else {
        let rest = content.drop_last();
        lemma_response_roles(start, policy, requests, session_id, rest, ids.drop_last());
        if content.last() is ToolResponse {
            let before = result_names(rest, ids.drop_last());
            assert((start.dependencies.inputs + before).push(ids.last().1)
                =~= start.dependencies.inputs + before.push(ids.last().1));
        }
    }
}

proof fn lemma_message_roles(
    start: Gathering,
    policy: SourcePolicyView,
    requests: Map<RequestName, LinkView>,
    session_id: Seq<char>,
    messages: Seq<MessageView>,
    ids: Seq<MessageIds>,
)
    requires
        ids.len() == messages.len(),
    ensures
        gather_messages(start, policy, requests, session_id, messages, ids).dependencies == (
        DependenciesView {
            inputs: start.dependencies.inputs + all_result_names(messages, ids),
            history: start.dependencies.history + ids.map_values(|names: MessageIds| names.message),
            ..start.dependencies
        }),
    decreases messages.len(),
{
    let message = |names: MessageIds| names.message;
    if messages.len() == 0 {
        assert(start.dependencies.inputs + all_result_names(messages, ids)
            =~= start.dependencies.inputs);
        assert(start.dependencies.history + ids.map_values(message)
            =~= start.dependencies.history);
    } else {
        let rest = messages.drop_last();
        let fewer = ids.drop_last();
        lemma_message_roles(start, policy, requests, session_id, rest, fewer);
        let before = gather_messages(start, policy, requests, session_id, rest, fewer);
        let with = Gathering {
            trace: source_in(
                before.trace,
                policy,
                messages.last().encoding,
                ids.last().message,
            ),
            dependencies: DependenciesView {
                history: before.dependencies.history.push(ids.last().message),
                ..before.dependencies
            },
        };
        lemma_response_roles(
            with,
            policy,
            requests,
            session_id,
            messages.last().content,
            ids.last().content,
        );
        assert((start.dependencies.history + fewer.map_values(message)).push(ids.last().message)
            =~= start.dependencies.history + ids.map_values(message));
        let names = result_names(messages.last().content, ids.last().content);
        assert(start.dependencies.inputs + all_result_names(rest, fewer) + names
            =~= start.dependencies.inputs + all_result_names(messages, ids));
    }
}

/// A model call depends on its instructions, its settings, each of its tools' schemas and each of
/// its messages, in their roles and in order; and on the result of every response in its
/// messages, in order, as its input.
pub proof fn calls_depend_on_all_they_are_given(
    observer: ObserverView,
    session_id: Seq<char>,
    call: ModelCallView,
    ids: CallIds,
)
    requires
        ids.schemas.len() == call.tools.len(),
        ids.messages.len() == call.messages.len(),
    ensures
        ({
            let dependencies = observer.gather(session_id, call, ids).dependencies;
            &&& dependencies.instructions == seq![ids.instructions]
            &&& dependencies.settings == seq![ids.settings]
            &&& dependencies.schemas == ids.schemas
            &&& dependencies.history == Seq::new(
                ids.messages.len(),
                |i: int| ids.messages[i].message,
            )
            &&& dependencies.inputs == all_result_names(call.messages, ids.messages)
            &&& dependencies.control.len() == 0
        }),
{
    let instructions = source_in(
        observer.trace,
        observer.policy,
        text_encoding(call.system),
        ids.instructions,
    );
    let settings = source_in(
        instructions,
        observer.policy,
        call.model_config,
        ids.settings,
    );
    let start = Gathering {
        trace: settings,
        dependencies: DependenciesView {
            instructions: seq![ids.instructions],
            settings: seq![ids.settings],
            ..DependenciesView::none()
        },
    };
    lemma_schema_roles(start, observer.policy, call.tools, ids.schemas);
    let schemas = gather_schemas(start, observer.policy, call.tools, ids.schemas);
    lemma_message_roles(
        schemas,
        observer.policy,
        observer.requests,
        session_id,
        call.messages,
        ids.messages,
    );
    let dependencies = observer.gather(session_id, call, ids).dependencies;
    assert(dependencies.schemas =~= ids.schemas);
    assert(dependencies.history =~= Seq::new(
        ids.messages.len(),
        |i: int| ids.messages[i].message,
    ));
    assert(dependencies.inputs =~= all_result_names(call.messages, ids.messages));
}

proof fn lemma_pending(trace: TraceView, records: Seq<RecordView>)
    requires
        !trace.logging_failed,
    ensures
        !record_all(trace, records).logging_failed,
        record_all(trace, records).pending == trace.pending + records.map_values(
            |record: RecordView| record.normalized(),
        ),
    decreases records.len(),
{
    let normal = |record: RecordView| record.normalized();
    if records.len() == 0 {
        assert(trace.pending + records.map_values(normal) =~= trace.pending);
    } else {
        lemma_pending(trace, records.drop_last());
        assert((trace.pending + records.drop_last().map_values(normal)).push(
            records.last().normalized(),
        ) =~= trace.pending + records.map_values(normal));
    }
}

/// A model call writes the records of all that it depends on, of the delivery of each of them to
/// its context, and last of itself: a record of the call with the dependencies in their roles,
/// the context as it is by then, and whether its inputs are all known. The value of the call is
/// the one that it records, and the context of the session has its label from then on.
pub proof fn calls_are_recorded_last(
    observer: ObserverView,
    session_id: Seq<char>,
    call: ModelCallView,
    ids: CallIds,
)
    requires
        observer.drawn_for(session_id, call, ids),
        !observer.enter(session_id, ids.context).trace.logging_failed,
    ensures
        ({
            let entered = observer.enter(session_id, ids.context);
            let (after, value) = observer.request(session_id, call, ids);
            let records = call_records(entered, session_id, call, ids);
            let last = after.trace.pending.last();
            &&& after.trace.pending.drop_last() == entered.trace.pending + records.map_values(
                |record: RecordView| record.normalized(),
            )
            &&& last.operation == Operation::ModelCall
            &&& last.id == ids.call
            &&& last.inputs_complete == call.inputs_complete
            &&& last.dependencies == entered.gather(session_id, call, ids).dependencies
            &&& last.context_ref == Some(ids.exposures.last())
            &&& last.label == value.label
            &&& value.reference == ids.call
            &&& after.sessions.contains_key(session_id)
            &&& after.sessions[session_id].current == value
            &&& after.sessions[session_id].domain == entered.sessions[session_id].domain
        }),
{
    let entered = observer.enter(session_id, ids.context);
    let (after, value) = observer.request(session_id, call, ids);
    let records = call_records(entered, session_id, call, ids);
    lemma_call_records(entered, session_id, call, ids);
    lemma_pending(entered.trace, records);
    let before = record_all(entered.trace, records);
    assert(after.trace.pending.drop_last() =~= before.pending);
    let gathered = entered.gather(session_id, call, ids);
    let references = gathered.dependencies.references();
    lemma_domain(
        gathered.trace,
        entered.sessions[session_id],
        references,
        ids.exposures,
    );
    calls_depend_on_all_they_are_given(entered, session_id, call, ids);
    assert(references.len() >= 1);
    lemma_reference(gathered.trace, entered.sessions[session_id], references, ids.exposures);
}

proof fn lemma_domain(
    trace: TraceView,
    context: ContextView,
    references: Seq<Seq<char>>,
    ids: Seq<Seq<char>>,
)
    ensures
        observe_all(trace, context, references, ids).1.domain == context.domain,
    decreases references.len(),
{
    if references.len() > 0 {
        lemma_domain(trace, context, references.drop_last(), ids.drop_last());
    }
}

/// A request of a tool is found by its session and its name as long as that name was used once;
/// it is then the value that was recorded of it.
pub proof fn requests_are_found_by_name(
    requests: Map<RequestName, LinkView>,
    name: RequestName,
    value: ValueView,
)
    ensures
        request_for(requests, name) == Some(value) <==> requests.contains_key(name)
            && requests[name] == LinkView::Single(value),
        !requests.contains_key(name) || requests[name] == LinkView::Ambiguous ==> request_for(
            requests,
            name,
        ) is None,
{
}

/// A request that becomes known under a new name is found under it; one whose name is known
/// already makes the name ambiguous. Nothing else changes but that the oldest name is forgotten
/// where four thousand and ninety-six are remembered.
pub proof fn requests_become_known(
    observer: ObserverView,
    name: RequestName,
    value: ValueView,
    other: RequestName,
)
    requires
        observer.bounded(),
    ensures
        ({
            let after = observer.link(name, value);
            let known = observer.requests.contains_key(name);
            let forgotten = !known && observer.request_order.len() == 4096
                && observer.request_order[0] == other;
            &&& !known ==> request_for(after.requests, name) == Some(value)
            &&& known ==> request_for(after.requests, name) is None && after.requests.contains_key(
                name,
            )
            &&& other != name ==> {
                &&& after.requests.contains_key(other) <==> observer.requests.contains_key(other)
                    && !forgotten
                &&& after.requests.contains_key(other) ==> after.requests[other]
                    == observer.requests[other]
            }
            &&& after.sessions == observer.sessions
            &&& after.trace == observer.trace
            &&& after.policy == observer.policy
        }),
{
    if !observer.requests.contains_key(name) {
        lemma_lists_rotate(
            observer.request_order,
            observer.requests,
            name,
            LinkView::Single(value),
            4096,
        );
        if observer.request_order.len() == 4096 {
            assert(observer.request_order.push(name)[0] == observer.request_order[0]);
            assert(observer.request_order.contains(observer.request_order[0]));
        }
    }
}

/// The label of an output of a call: that of the call, or unknown where the output has no
/// encoding.
pub open spec fn output_label(invocation: ValueView, encoding: Option<Seq<u8>>) -> LabelView {
    if encoding is Some {
        invocation.label.normalized()
    } else {
        LabelView::Unknown
    }
}

/// Whether a piece of a message is a request of that name.
pub open spec fn requests_as(piece: ContentView, id: Seq<char>) -> bool {
    piece matches ContentView::ToolRequest { id: named, .. } && named == id
}

proof fn lemma_link_all(
    observer: ObserverView,
    session_id: Seq<char>,
    response: ValueView,
    content: Seq<ContentView>,
    ids: Seq<Seq<char>>,
    name: RequestName,
)
    requires
        observer.bounded(),
        ids.len() == content.len(),
        observer.request_order.len() + content.len() <= 4096,
    ensures
        ({
            let after = observer.link_all(session_id, response, content, ids);
            let used = name.0 == session_id && exists|k: int|
                0 <= k < content.len() && requests_as(#[trigger] content[k], name.1);
            &&& after.bounded()
            &&& after.request_order.len() <= observer.request_order.len() + content.len()
            &&& after.sessions == observer.sessions
            &&& after.requests.contains_key(name) <==> observer.requests.contains_key(name) || used
            &&& observer.requests.contains_key(name) && !used ==> after.requests[name]
                == observer.requests[name]
            &&& observer.requests.contains_key(name) && used ==> after.requests[name]
                == LinkView::Ambiguous
        }),
    decreases content.len(),
{
    if content.len() > 0 {
        let rest = content.drop_last();
        let names = ids.drop_last();
        let n = content.len() - 1;
        lemma_link_all(observer, session_id, response, rest, names, name);
        let before = observer.link_all(session_id, response, rest, names);
        let after = observer.link_all(session_id, response, content, ids);
        assert(forall|k: int| 0 <= k < n ==> #[trigger] content[k] == rest[k]);
        assert(forall|k: int| 0 <= k < n ==> content[k] == #[trigger] rest[k]);
        assert(content[n] == content.last());
        if let ContentView::ToolRequest { id, encoding } = content.last() {
            let record = output_record(ids.last(), response, Operation::ToolRequest, encoding);
            let key = (session_id, id);
            if before.requests.contains_key(key) {
                assert forall|other: RequestName| #[trigger]
                    after.requests.contains_key(other) <==> after.request_order.contains(other) by {
                    assert(before.requests.contains_key(other) <==> before.request_order.contains(
                        other,
                    ));
                }
            } else {
                lemma_lists_rotate(
                    before.request_order,
                    before.requests,
                    key,
                    LinkView::Single(record.value()),
                    4096,
                );
            }
            if key == name {
                assert(requests_as(content[n], name.1));
            } else if name.0 == session_id {
                assert(!requests_as(content[n], name.1));
            }
        } else {
            assert(!requests_as(content[n], name.1));
        }
    }
}

proof fn lemma_linked(
    observer: ObserverView,
    session_id: Seq<char>,
    response: ValueView,
    content: Seq<ContentView>,
    ids: Seq<Seq<char>>,
    i: int,
    id: Seq<char>,
)
    requires
        observer.bounded(),
        ids.len() == content.len(),
        observer.request_order.len() + content.len() <= 4096,
        0 <= i < content.len(),
        requests_as(content[i], id),
    ensures
        ({
            let after = observer.link_all(session_id, response, content, ids);
            let name = (session_id, id);
            let used = observer.requests.contains_key(name) || exists|k: int|
                0 <= k < content.len() && k != i && requests_as(#[trigger] content[k], id);
            &&& after.requests.contains_key(name)
            &&& used ==> after.requests[name] == LinkView::Ambiguous
            &&& !used ==> after.requests[name] == LinkView::Single(
                ValueView {
                    reference: ids[i],
                    label: output_label(response, content[i]->ToolRequest_encoding),
                },
            )
        }),
    decreases content.len(),
{
    let rest = content.drop_last();
    let names = ids.drop_last();
    let n = content.len() - 1;
    let name = (session_id, id);
    let before = observer.link_all(session_id, response, rest, names);
    lemma_link_all(observer, session_id, response, rest, names, name);
    lemma_link_all(observer, session_id, response, content, ids, name);
    assert(forall|k: int| 0 <= k < n ==> #[trigger] content[k] == rest[k]);
    assert(forall|k: int| 0 <= k < n ==> content[k] == #[trigger] rest[k]);
    assert(content[n] == content.last());
    if let ContentView::ToolRequest { id: last, encoding } = content.last() {
        let record = output_record(ids.last(), response, Operation::ToolRequest, encoding);
        if !before.requests.contains_key((session_id, last)) {
            lemma_lists_rotate(
                before.request_order,
                before.requests,
                (session_id, last),
                LinkView::Single(record.value()),
                4096,
            );
        }
    }
    if i < n {
        lemma_linked(observer, session_id, response, rest, names, i, id);
        assert(requests_as(rest[i], id));
        assert(before.requests.contains_key(name));
        if requests_as(content[n], id) {
            assert(requests_as(content[n], id) && n != i);
        }
    } else if exists|k: int| 0 <= k < n && requests_as(#[trigger] rest[k], id) {
        let k = choose|k: int| 0 <= k < n && requests_as(#[trigger] rest[k], id);
        assert(requests_as(content[k], id) && k != i);
    } else {
        assert forall|k: int| 0 <= k < content.len() && k != i implies !requests_as(
            #[trigger] content[k],
            id,
        ) by {
            assert(content[k] == rest[k]);
        }
    }
}

/// Each request in a message is found under its session and its name, with the label of the call
/// that gave the message, as long as that name was used for nothing else; a name that was used
/// twice, in this message or before, tells nothing. Other names, and all contexts, stay as they
/// were.
pub proof fn messages_make_their_requests_known(
    observer: ObserverView,
    session_id: Seq<char>,
    invocation: ValueView,
    message: MessageView,
    id: Seq<char>,
    ids: Seq<Seq<char>>,
    i: int,
    other: RequestName,
)
    requires
        observer.bounded(),
        ids.len() == message.content.len(),
        observer.request_order.len() + message.content.len() <= 4096,
    ensures
        ({
            let after = observer.response(session_id, invocation, message, id, ids);
            let content = message.content;
            &&& after.sessions == observer.sessions
            &&& 0 <= i < content.len() ==> (content[i] matches ContentView::ToolRequest {
                id: named,
                encoding,
            } ==> {
                let used = observer.requests.contains_key((session_id, named)) || exists|k: int|
                    0 <= k < content.len() && k != i && requests_as(#[trigger] content[k], named);
                let found = request_for(after.requests, (session_id, named));
                &&& used ==> found is None
                &&& !used ==> found == Some(
                    ValueView {
                        reference: ids[i],
                        label: if message.encoding is Some && encoding is Some {
                            invocation.label.normalized()
                        } else {
                            LabelView::Unknown
                        },
                    },
                )
            })
            &&& other.0 != session_id || (forall|k: int|
                0 <= k < content.len() ==> !requests_as(#[trigger] content[k], other.1))
                ==> request_for(after.requests, other) == request_for(
                observer.requests,
                other,
            )
        }),
{
    let record = output_record(id, invocation, Operation::ModelOutput, message.encoding);
    let first = ObserverView { trace: observer.trace.record(record), ..observer };
    lemma_link_all(first, session_id, record.value(), message.content, ids, other);
    if 0 <= i < message.content.len() {
        if let ContentView::ToolRequest { id: named, .. } = message.content[i] {
            lemma_linked(first, session_id, record.value(), message.content, ids, i, named);
        }
    }
}

/// The records that a message leaves: one of the message as an output of its call, and one of
/// each request in it, as an output of the message, in order.
pub open spec fn message_outputs(
    response: ValueView,
    content: Seq<ContentView>,
    ids: Seq<Seq<char>>,
) -> Seq<RecordView>
    decreases content.len(),
{
    if content.len() == 0 {
        Seq::empty()
    } else {
        let before = message_outputs(response, content.drop_last(), ids.drop_last());
        match content.last() {
            ContentView::ToolRequest { encoding, .. } => before.push(
                output_record(ids.last(), response, Operation::ToolRequest, encoding),
            ),
            _ => before,
        }
    }
}

proof fn lemma_message_outputs(
    observer: ObserverView,
    session_id: Seq<char>,
    response: ValueView,
    content: Seq<ContentView>,
    ids: Seq<Seq<char>>,
)
    ensures
        observer.link_all(session_id, response, content, ids).trace == record_all(
            observer.trace,
            message_outputs(response, content, ids),
        ),
    decreases content.len(),
{
    if content.len() > 0 {
        lemma_message_outputs(
            observer,
            session_id,
            response,
            content.drop_last(),
            ids.drop_last(),
        );
        if content.last() is ToolRequest {
            assert(message_outputs(response, content, ids).drop_last() =~= message_outputs(
                response,
                content.drop_last(),
                ids.drop_last(),
            ));
        }
    }
}

/// A message is recorded as an output of its call, and each request in it as an output of the
/// message.
pub proof fn messages_are_recorded(
    observer: ObserverView,
    session_id: Seq<char>,
    invocation: ValueView,
    message: MessageView,
    id: Seq<char>,
    ids: Seq<Seq<char>>,
)
    ensures
        ({
            let output = output_record(id, invocation, Operation::ModelOutput, message.encoding);
            observer.response(session_id, invocation, message, id, ids).trace == record_all(
                observer.trace.record(output),
                message_outputs(output.value(), message.content, ids),
            )
        }),
{
    let record = output_record(id, invocation, Operation::ModelOutput, message.encoding);
    lemma_message_outputs(
        ObserverView { trace: observer.trace.record(record), ..observer },
        session_id,
        record.value(),
        message.content,
        ids,
    );
}

/// An error is recorded as an unknown output of its call, by the digest of its text, and is
/// delivered to the context of its session, which is unknown from then on. Other sessions and all
/// requests stay as they were.
pub proof fn errors_are_recorded(
    observer: ObserverView,
    session_id: Seq<char>,
    invocation: ValueView,
    error: Seq<char>,
    id: Seq<char>,
    exposure: Seq<char>,
    other: Seq<char>,
)
    requires
        !observer.trace.logging_failed,
        other != session_id,
    ensures
        ({
            let after = observer.error(session_id, invocation, error, id, exposure);
            let start = observer.trace.pending.len() as int;
            let written = after.trace.pending;
            &&& written.take(start) == observer.trace.pending
            &&& written[start].operation == Operation::Error
            &&& written[start].id == id
            &&& written[start].label == LabelView::Unknown
            &&& written[start].dependencies.inputs == seq![invocation.reference]
            &&& written[start].content_digest == Some(digest_of(text_encoding(error)->Some_0))
            &&& observer.sessions.contains_key(session_id) ==> {
                &&& written.len() == start + 2
                &&& written[start + 1].operation == Operation::Exposure
                &&& written[start + 1].id == exposure
                &&& written[start + 1].checked_ref == Some(id)
                &&& written[start + 1].exposure == Some(Exposure::Delivered)
                &&& written[start + 1].context_ref == Some(
                    observer.sessions[session_id].current.reference,
                )
                &&& after.sessions[session_id].current == (ValueView {
                    reference: exposure,
                    label: LabelView::Unknown,
                })
                &&& after.sessions[session_id].domain == observer.sessions[session_id].domain
            }
            &&& !observer.sessions.contains_key(session_id) ==> written.len() == start + 1
                && after.sessions == observer.sessions
            &&& after.sessions.contains_key(other) == observer.sessions.contains_key(other)
            &&& after.sessions.contains_key(other) ==> after.sessions[other]
                == observer.sessions[other]
            &&& after.requests == observer.requests
        }),
{
    let after = observer.error(session_id, invocation, error, id, exposure);
    let start = observer.trace.pending.len() as int;
    assert(after.trace.pending.take(start) =~= observer.trace.pending);
    let record = output_record(id, invocation, Operation::Error, text_encoding(error));
    assert(observer.trace.record(record).resolve(id) == LabelView::Unknown);
}

/// Each value that is delivered to a context is recorded on its own, in order, under its own
/// name: the value that was checked, that it was delivered, and the context as the delivery
/// before left it.
pub proof fn deliveries_are_recorded_one_by_one(
    trace: TraceView,
    context: ContextView,
    references: Seq<Seq<char>>,
    ids: Seq<Seq<char>>,
    i: int,
)
    requires
        ids.len() == references.len(),
        0 <= i < references.len(),
    ensures
        ({
            let records = exposure_records(trace, context, references, ids);
            &&& records.len() == references.len()
            &&& records[i].operation == Operation::Exposure
            &&& records[i].id == ids[i]
            &&& records[i].checked_ref == Some(references[i])
            &&& records[i].exposure == Some(Exposure::Delivered)
            &&& records[i].dependencies.inputs == seq![references[i]]
            &&& records[i].context_ref == Some(
                if i == 0 {
                    context.current.reference
                } else {
                    ids[i - 1]
                },
            )
        }),
    decreases references.len(),
{
    let rest = references.drop_last();
    let names = ids.drop_last();
    lemma_exposures(trace, context, rest, names);
    if i < rest.len() {
        deliveries_are_recorded_one_by_one(trace, context, rest, names, i);
        assert(exposure_records(trace, context, references, ids)[i] == exposure_records(
            trace,
            context,
            rest,
            names,
        )[i]);
    } else {
        lemma_reference(trace, context, rest, names);
    }
}

proof fn lemma_reference(
    trace: TraceView,
    context: ContextView,
    references: Seq<Seq<char>>,
    ids: Seq<Seq<char>>,
)
    requires
        ids.len() == references.len(),
    ensures
        observe_all(trace, context, references, ids).1.current.reference == if ids.len() == 0 {
            context.current.reference
        } else {
            ids.last()
        },
{
}

/// The instructions, the settings and each schema of a call are recorded as sources, under their
/// own names, with the digests of what they are and the labels that the policy gives.
pub proof fn given_inputs_are_recorded(
    observer: ObserverView,
    session_id: Seq<char>,
    call: ModelCallView,
    ids: CallIds,
    i: int,
)
    ensures
        ({
            let records = input_records(observer, session_id, call, ids);
            let policy = observer.policy;
            let system = text_encoding(call.system);
            &&& records.contains(source_record(ids.instructions, system, policy.label(system)))
            &&& records.contains(
                source_record(ids.settings, call.model_config, policy.label(call.model_config)),
            )
            &&& 0 <= i < call.tools.len() ==> records.contains(
                source_record(ids.schemas[i], call.tools[i], policy.label(call.tools[i])),
            )
        }),
{
    let records = input_records(observer, session_id, call, ids);
    assert(records.contains(records[0]));
    assert(records.contains(records[1]));
    if 0 <= i < call.tools.len() {
        assert(records.contains(records[2 + i]));
    }
}

proof fn lemma_response_recorded(
    policy: SourcePolicyView,
    requests: Map<RequestName, LinkView>,
    session_id: Seq<char>,
    content: Seq<ContentView>,
    ids: Seq<(Seq<char>, Seq<char>)>,
    k: int,
)
    requires
        ids.len() == content.len(),
        0 <= k < content.len(),
        content[k] is ToolResponse,
    ensures
        ({
            let encoding = content[k]->ToolResponse_encoding;
            let source = source_record(ids[k].0, encoding, policy.label(encoding));
            let result = tool_result_record(
                ids[k].1,
                request_for(requests, (session_id, content[k]->ToolResponse_id)),
                source.value(),
                encoding,
            );
            let records = response_records(policy, requests, session_id, content, ids);
            records.contains(source) && records.contains(result)
        }),
    decreases content.len(),
{
    let rest = content.drop_last();
    let names = ids.drop_last();
    let before = response_records(policy, requests, session_id, rest, names);
    let records = response_records(policy, requests, session_id, content, ids);
    let encoding = content[k]->ToolResponse_encoding;
    let source = source_record(ids[k].0, encoding, policy.label(encoding));
    let result = tool_result_record(
        ids[k].1,
        request_for(requests, (session_id, content[k]->ToolResponse_id)),
        source.value(),
        encoding,
    );
    if k < rest.len() {
        assert(rest[k] == content[k]);
        assert(names[k] == ids[k]);
        lemma_response_recorded(policy, requests, session_id, rest, names, k);
        let a = before.index_of(source);
        let b = before.index_of(result);
        assert(records[a] == source);
        assert(records[b] == result);
    } else {
        let n = before.len() as int;
        assert(records[n] == source);
        assert(records[n + 1] == result);
    }
}

proof fn lemma_message_recorded(
    policy: SourcePolicyView,
    requests: Map<RequestName, LinkView>,
    session_id: Seq<char>,
    messages: Seq<MessageView>,
    ids: Seq<MessageIds>,
    i: int,
    record: RecordView,
)
    requires
        ids.len() == messages.len(),
        0 <= i < messages.len(),
        record == source_record(
            ids[i].message,
            messages[i].encoding,
            policy.label(messages[i].encoding),
        ) || response_records(
            policy,
            requests,
            session_id,
            messages[i].content,
            ids[i].content,
        ).contains(record),
    ensures
        message_records(policy, requests, session_id, messages, ids).contains(record),
    decreases messages.len(),
{
    let rest = messages.drop_last();
    let names = ids.drop_last();
    let before = message_records(policy, requests, session_id, rest, names);
    let records = message_records(policy, requests, session_id, messages, ids);
    if i < rest.len() {
        assert(rest[i] == messages[i]);
        assert(names[i] == ids[i]);
        lemma_message_recorded(policy, requests, session_id, rest, names, i, record);
        let a = before.index_of(record);
        assert(records[a] == record);
    } else {
        let responses = response_records(
            policy,
            requests,
            session_id,
            messages[i].content,
            ids[i].content,
        );
        let n = before.len() as int;
        if responses.contains(record) {
            let a = responses.index_of(record);
            assert(records[n + 1 + a] == record);
        } else {
            assert(records[n] == record);
        }
    }
}

/// Each message of a call is recorded as a source. Each response in it is recorded as a source
/// too, and as the result of the request that it answers, where there is exactly one: the request
/// controls it.
pub proof fn messages_and_results_are_recorded(
    observer: ObserverView,
    session_id: Seq<char>,
    call: ModelCallView,
    ids: CallIds,
    i: int,
    k: int,
)
    requires
        messages_drawn_for(ids.messages, call.messages),
        0 <= i < call.messages.len(),
    ensures
        ({
            let records = input_records(observer, session_id, call, ids);
            let policy = observer.policy;
            let message = call.messages[i];
            let names = ids.messages[i];
            &&& records.contains(
                source_record(names.message, message.encoding, policy.label(message.encoding)),
            )
            &&& 0 <= k < message.content.len() ==> (message.content[k]
                matches ContentView::ToolResponse { id, encoding } ==> {
                let source = source_record(names.content[k].0, encoding, policy.label(encoding));
                &&& records.contains(source)
                &&& records.contains(
                    tool_result_record(
                        names.content[k].1,
                        request_for(observer.requests, (session_id, id)),
                        source.value(),
                        encoding,
                    ),
                )
            })
        }),
{
    let records = input_records(observer, session_id, call, ids);
    let policy = observer.policy;
    let message = call.messages[i];
    let names = ids.messages[i];
    assert(names.drawn_for(message.content));
    let all = message_records(
        policy,
        observer.requests,
        session_id,
        call.messages,
        ids.messages,
    );
    let start = 2 + call.tools.len() as int;
    assert forall|record: RecordView| all.contains(record) implies records.contains(record) by {
        let a = all.index_of(record);
        assert(records[start + a] == record);
    }
    lemma_message_recorded(
        policy,
        observer.requests,
        session_id,
        call.messages,
        ids.messages,
        i,
        source_record(names.message, message.encoding, policy.label(message.encoding)),
    );
    if 0 <= k < message.content.len() {
        if let ContentView::ToolResponse { id, encoding } = message.content[k] {
            let source = source_record(names.content[k].0, encoding, policy.label(encoding));
            let result = tool_result_record(
                names.content[k].1,
                request_for(observer.requests, (session_id, id)),
                source.value(),
                encoding,
            );
            lemma_response_recorded(
                policy,
                observer.requests,
                session_id,
                message.content,
                names.content,
                k,
            );
            lemma_message_recorded(
                policy,
                observer.requests,
                session_id,
                call.messages,
                ids.messages,
                i,
                source,
            );
            lemma_message_recorded(
                policy,
                observer.requests,
                session_id,
                call.messages,
                ids.messages,
                i,
                result,
            );
        }
    }
}

/// A new observer knows no session and no request, and has its policy.
pub proof fn new_observers_hold_nothing(
    policy: SourcePolicyView,
    session_id: Seq<char>,
    name: RequestName,
)
    ensures
        ({
            let observer = ObserverView::empty(policy);
            &&& observer.policy == policy
            &&& !observer.sessions.contains_key(session_id)
            &&& request_for(observer.requests, name) is None
            &&& observer.trace == TraceView::empty()
            &&& observer.session_order.len() == 0 && observer.request_order.len() == 0
            &&& !observer.warned
        }),
{
}

} // verus!
