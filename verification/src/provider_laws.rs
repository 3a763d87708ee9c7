//! What holds of every observer of a provider.
use crate::digest::{content_digest_of, text_encoding};
use crate::label::LabelView;
use crate::provider::{
    lists, observe_all, request_for, CallIds, ContentView, LinkView, ModelCallView,
    ObserverView, RequestName, SourcePolicyView, CONTEXTS_KEPT, REQUESTS_KEPT,
};
use crate::trace::{
    enter_record, output_record, tool_result_record, ContextView, Operation, TraceView,
    ValueView,
};
use crate::trace_laws::lemma_unknown_start;
use vstd::prelude::*;

verus! {

proof fn lemma_observe_unknown(
    trace: TraceView,
    context: ContextView,
    references: Seq<Seq<char>>,
    ids: Seq<Seq<char>>,
)
    requires
        context.current.label == LabelView::Unknown,
    ensures
        observe_all(trace, context, references, ids).1.current.label == LabelView::Unknown,
    decreases references.len(),
{
    if references.len() > 0 {
        lemma_observe_unknown(trace, context, references.drop_last(), ids.drop_last());
    }
}

/// A model call from an unknown context is unknown, and so is the context after it.
pub proof fn unknown_contexts_stay_unknown(
    observer: ObserverView,
    session_id: Seq<char>,
    call: ModelCallView,
    ids: CallIds,
)
    requires
        observer.enter(session_id, ids.context).sessions[session_id].current.label
            == LabelView::Unknown,
    ensures
        observer.request(session_id, call, ids).1.label == LabelView::Unknown,
        observer.request(session_id, call, ids).0.sessions[session_id].current.label
            == LabelView::Unknown,
{
    let entered = observer.enter(session_id, ids.context);
    let gathered = entered.gather(session_id, call, ids);
    lemma_observe_unknown(
        gathered.trace,
        entered.sessions[session_id],
        gathered.dependencies.references(),
        ids.exposures,
    );
    let observed = observe_all(
        gathered.trace,
        entered.sessions[session_id],
        gathered.dependencies.references(),
        ids.exposures,
    );
    lemma_unknown_start(observed.0, gathered.dependencies.references());
}

/// Without a word of the policy on a session, its first call is unknown.
pub proof fn unclassified_sessions_are_unknown(
    observer: ObserverView,
    session_id: Seq<char>,
    call: ModelCallView,
    ids: CallIds,
)
    requires
        observer.bounded(),
        !observer.sessions.contains_key(session_id),
        !observer.policy.domains.contains_key(session_id),
    ensures
        observer.request(session_id, call, ids).1.label == LabelView::Unknown,
{
    lemma_enter(observer, session_id, ids.context);
    unknown_contexts_stay_unknown(observer, session_id, call, ids);
}

/// A session that is entered has a context, in its domain.
pub(crate) proof fn lemma_enter(observer: ObserverView, session_id: Seq<char>, id: Seq<char>)
    requires
        observer.bounded(),
    ensures
        ({
            let entered = observer.enter(session_id, id);
            &&& entered.bounded()
            &&& entered.sessions.contains_key(session_id)
            &&& !observer.sessions.contains_key(session_id) ==> entered.sessions[session_id]
                == (ContextView {
                domain: observer.policy.domain(
                    session_id,
                    observer.session_order.len() >= CONTEXTS_KEPT,
                ).normalized(),
                current: enter_record(
                    id,
                    observer.policy.domain(
                        session_id,
                        observer.session_order.len() >= CONTEXTS_KEPT,
                    ),
                ).value(),
            })
        }),
{
    if !observer.sessions.contains_key(session_id) {
        let domain = observer.policy.domain(
            session_id,
            observer.session_order.len() >= CONTEXTS_KEPT,
        );
        crate::provider::lemma_lists_rotate(
            observer.session_order,
            observer.sessions,
            session_id,
            ContextView { domain: domain.normalized(), current: enter_record(id, domain).value() },
            CONTEXTS_KEPT as nat,
        );
    }
}

/// An observer that is full stays full.
pub proof fn full_observers_stay_full(
    observer: ObserverView,
    session_id: Seq<char>,
    call: ModelCallView,
    ids: CallIds,
)
    requires
        observer.bounded(),
        observer.session_order.len() == CONTEXTS_KEPT,
    ensures
        observer.request(session_id, call, ids).0.session_order.len() == CONTEXTS_KEPT,
{
}

/// A context is forgotten only by an observer that is full.
pub proof fn only_full_observers_forget(
    observer: ObserverView,
    session_id: Seq<char>,
    call: ModelCallView,
    ids: CallIds,
    other: Seq<char>,
)
    requires
        observer.bounded(),
        observer.sessions.contains_key(other),
        !observer.request(session_id, call, ids).0.sessions.contains_key(other),
    ensures
        observer.session_order.len() == CONTEXTS_KEPT,
{
}

/// A session that may have been forgotten does not regain the label that its domain gives: a
/// full observer takes every session that it does not know for unknown.
pub proof fn forgotten_contexts_are_unknown(
    observer: ObserverView,
    session_id: Seq<char>,
    call: ModelCallView,
    ids: CallIds,
)
    requires
        observer.bounded(),
        observer.session_order.len() == CONTEXTS_KEPT,
        !observer.sessions.contains_key(session_id),
    ensures
        observer.request(session_id, call, ids).1.label == LabelView::Unknown,
{
    lemma_enter(observer, session_id, ids.context);
    unknown_contexts_stay_unknown(observer, session_id, call, ids);
}

/// An error makes the context of its session unknown, so that a retry is unknown too.
pub proof fn errors_make_contexts_unknown(
    observer: ObserverView,
    session_id: Seq<char>,
    invocation: ValueView,
    error: Seq<char>,
    id: Seq<char>,
    exposure: Seq<char>,
    retry: ModelCallView,
    ids: CallIds,
)
    requires
        observer.sessions.contains_key(session_id),
    ensures
        ({
            let after = observer.error(session_id, invocation, error, id, exposure);
            &&& after.sessions[session_id].current.label == LabelView::Unknown
            &&& after.request(session_id, retry, ids).1.label == LabelView::Unknown
        }),
{
    let after = observer.error(session_id, invocation, error, id, exposure);
    let record = output_record(id, invocation, Operation::Error, text_encoding(error));
    let trace = observer.trace.record(record);
    assert(trace.resolve(id) == LabelView::Unknown);
    unknown_contexts_stay_unknown(after, session_id, retry, ids);
}

/// A provider that has inputs of its own makes every call unknown.
pub proof fn stateful_providers_are_unknown(
    observer: ObserverView,
    session_id: Seq<char>,
    call: ModelCallView,
    ids: CallIds,
)
    requires
        !call.inputs_complete,
    ensures
        observer.request(session_id, call, ids).1.label == LabelView::Unknown,
{
}

/// Sources are told apart by their digests alone: what a source says of itself is not read.
pub proof fn sources_are_known_by_digest(
    policy: SourcePolicyView,
    left: Option<Seq<u8>>,
    right: Option<Seq<u8>>,
)
    requires
        content_digest_of(left) == content_digest_of(right),
    ensures
        policy.label(left) == policy.label(right),
{
}

/// The arguments of a request have the label of the whole response, and that of the call.
pub proof fn requests_inherit_the_call(
    id: Seq<char>,
    request_id: Seq<char>,
    invocation: ValueView,
    response: Seq<u8>,
    request: Seq<u8>,
)
    requires
        invocation.normal(),
    ensures
        ({
            let output = output_record(id, invocation, Operation::ModelOutput, Some(response));
            let proposed = output_record(
                request_id,
                output.value(),
                Operation::ToolRequest,
                Some(request),
            );
            &&& output.value().label == invocation.label
            &&& proposed.value().label == invocation.label
        }),
{
}

/// A name that was used for two requests controls nothing: what answers it is unknown, and
/// stays so however often the name comes again.
pub proof fn ambiguous_requests_control_nothing(
    observer: ObserverView,
    name: RequestName,
    first: ValueView,
    second: ValueView,
    third: ValueView,
    id: Seq<char>,
    source: ValueView,
    encoding: Option<Seq<u8>>,
)
    requires
        observer.bounded(),
    ensures
        ({
            let twice = observer.link(name, first).link(name, second);
            &&& request_for(twice.requests, name) is None
            &&& request_for(twice.link(name, third).requests, name) is None
            &&& tool_result_record(
                id,
                request_for(twice.requests, name),
                source,
                encoding,
            ).value().label == LabelView::Unknown
        }),
{
    if !observer.requests.contains_key(name) {
        crate::provider::lemma_lists_rotate(
            observer.request_order,
            observer.requests,
            name,
            LinkView::Single(first),
            REQUESTS_KEPT as nat,
        );
    }
}

/// What a response makes known are requests of its own session; of another session's requests
/// it may forget some, and changes none.
pub proof fn responses_link_only_their_session(
    observer: ObserverView,
    session_id: Seq<char>,
    response: ValueView,
    content: Seq<ContentView>,
    ids: Seq<Seq<char>>,
    name: RequestName,
)
    requires
        name.0 != session_id,
        observer.link_all(session_id, response, content, ids).requests.contains_key(name),
    ensures
        observer.requests.contains_key(name),
        observer.link_all(session_id, response, content, ids).requests[name]
            == observer.requests[name],
    decreases content.len(),
{
    if content.len() > 0 {
        responses_link_only_their_session(
            observer,
            session_id,
            response,
            content.drop_last(),
            ids.drop_last(),
            name,
        );
    }
}

proof fn lemma_lists_len<K, V>(order: Seq<K>, map: Map<K, V>, limit: nat)
    requires
        lists(order, map, limit),
    ensures
        map.dom().finite(),
        map.len() == order.len(),
{
    assert(map.dom() =~= order.to_set()) by {
        assert forall|key: K| map.dom().contains(key) <==> order.to_set().contains(key) by {
            assert(map.contains_key(key) <==> order.contains(key));
        }
    }
    order.unique_seq_to_set();
    vstd::seq_lib::seq_to_set_is_finite(order);
}

/// No more contexts and requests are remembered than may be.
pub proof fn memory_is_bounded(observer: ObserverView)
    requires
        observer.bounded(),
    ensures
        observer.sessions.dom().finite(),
        observer.sessions.len() == observer.session_order.len(),
        observer.sessions.len() <= CONTEXTS_KEPT,
        observer.requests.dom().finite(),
        observer.requests.len() <= REQUESTS_KEPT,
{
    lemma_lists_len(observer.session_order, observer.sessions, CONTEXTS_KEPT as nat);
    lemma_lists_len(observer.request_order, observer.requests, REQUESTS_KEPT as nat);
}

} // verus!
