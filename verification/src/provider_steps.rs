//! What holds of an observer however long it is used.
use crate::label::LabelView;
use crate::provider::{
    lemma_lists_rotate, observe_all, CallIds, ContentView, LinkView, MessageView, ModelCallView,
    ObserverView, SourcePolicyView, CONTEXTS_KEPT, REQUESTS_KEPT,
};
use crate::provider_laws::{
    errors_make_contexts_unknown, lemma_enter, unknown_contexts_stay_unknown,
};
use crate::trace::{output_record, ContextView, Operation, TraceView, ValueView};
use vstd::prelude::*;

verus! {

/// One use of an observer.
pub enum Step {
    Request { session_id: Seq<char>, call: ModelCallView, ids: CallIds },
    Response {
        session_id: Seq<char>,
        invocation: ValueView,
        message: MessageView,
        id: Seq<char>,
        ids: Seq<Seq<char>>,
    },
    Failure {
        session_id: Seq<char>,
        invocation: ValueView,
        error: Seq<char>,
        id: Seq<char>,
        exposure: Seq<char>,
    },
    /// A failure to write is looked for, and noted as reported where there is one.
    Report,
    /// What is to be written is taken out.
    Drain,
    /// The next line is taken out.
    Take,
    /// It becomes known whether a line could be written.
    Note { written: bool },
}

impl ObserverView {
    /// The observer after one use.
    pub open spec fn step(self, step: Step) -> ObserverView {
        match step {
            Step::Request { session_id, call, ids } => self.request(session_id, call, ids).0,
            Step::Response { session_id, invocation, message, id, ids } => self.response(
                session_id,
                invocation,
                message,
                id,
                ids,
            ),
            Step::Failure { session_id, invocation, error, id, exposure } => self.error(
                session_id,
                invocation,
                error,
                id,
                exposure,
            ),
            Step::Report => ObserverView {
                warned: self.warned || self.trace.logging_failed,
                ..self
            },
            Step::Drain => ObserverView {
                trace: TraceView { pending: Seq::empty(), ..self.trace },
                ..self
            },
            Step::Take => ObserverView { trace: self.trace.taken(), ..self },
            Step::Note { written } => ObserverView { trace: self.trace.noted(written), ..self },
        }
    }

    /// The observer after some uses, in order.
    pub open spec fn steps(self, steps: Seq<Step>) -> ObserverView
        decreases steps.len(),
    {
        if steps.len() == 0 {
            self
        } else {
            self.steps(steps.drop_last()).step(steps.last())
        }
    }

    /// Whether the labels of all contexts and requests are unknown wherever they have no realm.
    pub open spec fn normal(self) -> bool {
        &&& forall|id: Seq<char>|
            self.sessions.contains_key(id) ==> (#[trigger] self.sessions[id]).normal()
        &&& forall|name: (Seq<char>, Seq<char>)|
            self.requests.contains_key(name) ==> ((#[trigger] self.requests[name])
                matches LinkView::Single(value) ==> value.normal())
    }

    /// Whether nothing but unknown can come of a session: its context is unknown, or it was
    /// forgotten by an observer that is full.
    pub open spec fn lost(self, session_id: Seq<char>) -> bool {
        if self.sessions.contains_key(session_id) {
            self.sessions[session_id].current.label == LabelView::Unknown
        } else {
            self.session_order.len() == CONTEXTS_KEPT
        }
    }
}

/// A new observer is within its bounds, and holds no label.
pub proof fn new_observers_are_within_bounds(policy: SourcePolicyView)
    ensures
        ObserverView::empty(policy).bounded(),
        ObserverView::empty(policy).normal(),
{
}

proof fn lemma_links(
    observer: ObserverView,
    session_id: Seq<char>,
    response: ValueView,
    content: Seq<ContentView>,
    ids: Seq<Seq<char>>,
)
    requires
        observer.bounded(),
    ensures
        ({
            let after = observer.link_all(session_id, response, content, ids);
            &&& after.bounded()
            &&& after.sessions == observer.sessions
            &&& after.session_order == observer.session_order
            &&& observer.normal() ==> after.normal()
        }),
    decreases content.len(),
{
    if content.len() > 0 {
        lemma_links(observer, session_id, response, content.drop_last(), ids.drop_last());
        let before = observer.link_all(
            session_id,
            response,
            content.drop_last(),
            ids.drop_last(),
        );
        if let ContentView::ToolRequest { id, encoding } = content.last() {
            let name = (session_id, id);
            let after = observer.link_all(session_id, response, content, ids);
            if before.requests.contains_key(name) {
                assert forall|key: (Seq<char>, Seq<char>)| #[trigger]
                    after.requests.contains_key(key) <==> after.request_order.contains(key) by {
                    assert(before.requests.contains_key(key) <==> before.request_order.contains(
                        key,
                    ));
                }
            } else {
                let value = output_record(
                    ids.last(),
                    response,
                    Operation::ToolRequest,
                    encoding,
                ).value();
                lemma_lists_rotate(
                    before.request_order,
                    before.requests,
                    name,
                    LinkView::Single(value),
                    REQUESTS_KEPT as nat,
                );
            }
        }
    }
}

proof fn lemma_links_keep_report(
    observer: ObserverView,
    session_id: Seq<char>,
    response: ValueView,
    content: Seq<ContentView>,
    ids: Seq<Seq<char>>,
)
    ensures
        observer.link_all(session_id, response, content, ids).warned == observer.warned,
    decreases content.len(),
{
    if content.len() > 0 {
        lemma_links_keep_report(
            observer,
            session_id,
            response,
            content.drop_last(),
            ids.drop_last(),
        );
    }
}

proof fn lemma_same_domain(
    trace: TraceView,
    context: ContextView,
    references: Seq<Seq<char>>,
    ids: Seq<Seq<char>>,
)
    ensures
        observe_all(trace, context, references, ids).1.domain == context.domain,
    decreases references.len(),
{
    if references.len() > 0 {
        lemma_same_domain(trace, context, references.drop_last(), ids.drop_last());
    }
}

proof fn lemma_update_listed(before: ObserverView, after: ObserverView, id: Seq<char>)
    requires
        before.bounded(),
        before.sessions.contains_key(id),
        after.sessions == before.sessions.insert(id, after.sessions[id]),
        after.session_order == before.session_order,
        after.requests == before.requests,
        after.request_order == before.request_order,
    ensures
        after.bounded(),
{
    assert forall|key: Seq<char>| #[trigger]
        after.sessions.contains_key(key) <==> after.session_order.contains(key) by {
        assert(before.sessions.contains_key(key) <==> before.session_order.contains(key));
    }
}

proof fn lemma_step(observer: ObserverView, step: Step)
    requires
        observer.bounded(),
    ensures
        observer.step(step).bounded(),
        observer.normal() ==> observer.step(step).normal(),
{
    let after = observer.step(step);
    match step {
        Step::Request { session_id, call, ids } => {
            lemma_enter(observer, session_id, ids.context);
            let entered = observer.enter(session_id, ids.context);
            let gathered = entered.gather(session_id, call, ids);
            lemma_same_domain(
                gathered.trace,
                entered.sessions[session_id],
                gathered.dependencies.references(),
                ids.exposures,
            );
            lemma_update_listed(entered, after, session_id);
            if observer.normal() {
                assert(entered.sessions[session_id].normal());
                assert(entered.normal());
                assert forall|id: Seq<char>| after.sessions.contains_key(id) implies (
                #[trigger] after.sessions[id]).normal() by {
                    assert(entered.sessions[id].normal());
                }
            }
        },
        Step::Response { session_id, invocation, message, id, ids } => {
            let record = output_record(
                id,
                invocation,
                Operation::ModelOutput,
                message.encoding,
            );
            let first = ObserverView { trace: observer.trace.record(record), ..observer };
            if observer.normal() {
                assert(first.normal()) by {
                    assert forall|id: Seq<char>| first.sessions.contains_key(id) implies (
                    #[trigger] first.sessions[id]).normal() by {
                        assert(observer.sessions[id].normal());
                    }
                }
            }
            lemma_links(first, session_id, record.value(), message.content, ids);
        },
        Step::Failure { session_id, .. } => {
            if observer.sessions.contains_key(session_id) {
                lemma_update_listed(observer, after, session_id);
                if observer.normal() {
                    assert(observer.sessions[session_id].normal());
                    assert forall|id: Seq<char>| after.sessions.contains_key(id) implies (
                    #[trigger] after.sessions[id]).normal() by {
                        assert(observer.sessions[id].normal());
                    }
                }
            }
        },
        _ => {},
    }
}

/// A failure to write is reported once: after it was, there is none to report however the
/// observer is used.
pub proof fn failures_are_reported_once(observer: ObserverView, steps: Seq<Step>)
    requires
        observer.warned,
    ensures
        observer.steps(steps).warned,
    decreases steps.len(),
{
    if steps.len() > 0 {
        failures_are_reported_once(observer, steps.drop_last());
        let before = observer.steps(steps.drop_last());
        if let Step::Response { session_id, invocation, message, id, ids } = steps.last() {
            let record = output_record(
                id,
                invocation,
                Operation::ModelOutput,
                message.encoding,
            );
            let first = ObserverView { trace: before.trace.record(record), ..before };
            lemma_links_keep_report(first, session_id, record.value(), message.content, ids);
        }
    }
}

/// However an observer is used, it stays within its bounds, and its labels stay unknown
/// wherever they have no realm.
pub proof fn use_keeps_bounds_and_labels_normal(observer: ObserverView, steps: Seq<Step>)
    requires
        observer.bounded(),
        observer.normal(),
    ensures
        observer.steps(steps).bounded(),
        observer.steps(steps).normal(),
    decreases steps.len(),
{
    if steps.len() > 0 {
        use_keeps_bounds_and_labels_normal(observer, steps.drop_last());
        lemma_step(observer.steps(steps.drop_last()), steps.last());
    }
}

proof fn lemma_lost_step(observer: ObserverView, step: Step, session_id: Seq<char>)
    requires
        observer.bounded(),
        observer.lost(session_id),
    ensures
        observer.step(step).lost(session_id),
{
    match step {
        Step::Request { session_id: other, call, ids } => {
            lemma_enter(observer, other, ids.context);
            if other == session_id {
                unknown_contexts_stay_unknown(observer, session_id, call, ids);
            }
        },
        Step::Response { session_id: other, invocation, message, id, ids } => {
            let record = output_record(
                id,
                invocation,
                Operation::ModelOutput,
                message.encoding,
            );
            let first = ObserverView { trace: observer.trace.record(record), ..observer };
            lemma_links(first, other, record.value(), message.content, ids);
        },
        _ => {},
    }
}

/// A session of which nothing but unknown can come stays one, whatever is done with it and with
/// others: every later call of it is unknown.
pub proof fn lost_sessions_stay_unknown(
    observer: ObserverView,
    session_id: Seq<char>,
    between: Seq<Step>,
    call: ModelCallView,
    ids: CallIds,
)
    requires
        observer.bounded(),
        observer.lost(session_id),
    ensures
        observer.steps(between).bounded(),
        observer.steps(between).lost(session_id),
        observer.steps(between).request(session_id, call, ids).1.label == LabelView::Unknown,
    decreases between.len(),
{
    if between.len() > 0 {
        lost_sessions_stay_unknown(observer, session_id, between.drop_last(), call, ids);
        let before = observer.steps(between.drop_last());
        lemma_step(before, between.last());
        lemma_lost_step(before, between.last(), session_id);
    }
    let now = observer.steps(between);
    lemma_enter(now, session_id, ids.context);
    unknown_contexts_stay_unknown(now, session_id, call, ids);
}

/// After an error every later call of its session is unknown, whatever comes between: calls,
/// messages and errors of any session, and contexts that are forgotten.
pub proof fn errors_taint_every_later_call(
    observer: ObserverView,
    session_id: Seq<char>,
    invocation: ValueView,
    error: Seq<char>,
    id: Seq<char>,
    exposure: Seq<char>,
    between: Seq<Step>,
    call: ModelCallView,
    ids: CallIds,
)
    requires
        observer.bounded(),
        observer.sessions.contains_key(session_id),
    ensures
        observer.error(session_id, invocation, error, id, exposure).steps(between).request(
            session_id,
            call,
            ids,
        ).1.label == LabelView::Unknown,
{
    let failure = Step::Failure { session_id, invocation, error, id, exposure };
    lemma_step(observer, failure);
    errors_make_contexts_unknown(
        observer,
        session_id,
        invocation,
        error,
        id,
        exposure,
        call,
        ids,
    );
    lost_sessions_stay_unknown(
        observer.error(session_id, invocation, error, id, exposure),
        session_id,
        between,
        call,
        ids,
    );
}

} // verus!
