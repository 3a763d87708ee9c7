//! Observing the calls of a model provider.
use crate::digest::{content_digest, content_digest_of, encode_text, encoding_view, text_encoding};
use crate::label::{Label, LabelView};
use crate::table::Table;
use crate::text::is_identifier;
use crate::trace::{
    computation_record, enter_record, observe_record, output_record, source_record,
    tool_result_record, Context, ContextView, Dependencies, DependenciesView, Domain,
    DomainView, Exposure, Operation, Record, Trace, TraceView, Value, ValueRef, ValueView,
};
use crate::views::{lemma_views_push, option_view, views};
use std::collections::VecDeque;
use vstd::prelude::*;

verus! {

/// How many contexts are remembered.
pub const CONTEXTS_KEPT: usize = 64;

/// How many requests of tools are remembered.
pub const REQUESTS_KEPT: usize = 4096;

/// The policy epoch of a context that nobody classified.
pub const UNCLASSIFIED_EPOCH: &'static str = "unclassified-provider-v1";

/// What a human says of sources and contexts before anything runs.
#[derive(Clone, Debug)]
pub struct SourcePolicy {
    /// Where contexts start, by session.
    pub domains: Table<String, Domain>,
    /// The labels of sources, by the digest of their encoding.
    pub sources: Table<String, Label>,
}

#[verifier::ext_equal]
pub struct SourcePolicyView {
    pub domains: Map<Seq<char>, DomainView>,
    pub sources: Map<Seq<char>, LabelView>,
}

impl View for SourcePolicy {
    type V = SourcePolicyView;

    open spec fn view(&self) -> SourcePolicyView {
        SourcePolicyView { domains: self.domains@, sources: self.sources@ }
    }
}

impl SourcePolicyView {
    /// The label of a source: the one given for its digest, else unknown.
    pub open spec fn label(self, encoding: Option<Seq<u8>>) -> LabelView {
        match content_digest_of(encoding) {
            Some(digest) => if self.sources.contains_key(digest) {
                self.sources[digest]
            } else {
                LabelView::Unknown
            },
            None => LabelView::Unknown,
        }
    }

    /// Where the context of a session starts. Once other contexts may have been forgotten, it
    /// cannot be said what the session holds.
    pub open spec fn domain(self, session_id: Seq<char>, crowded: bool) -> DomainView {
        let domain = if self.domains.contains_key(session_id) {
            self.domains[session_id]
        } else {
            DomainView {
                audience: LabelView::Unknown,
                retained_context: LabelView::Unknown,
                policy_epoch: UNCLASSIFIED_EPOCH@,
            }
        };
        if crowded {
            DomainView { retained_context: LabelView::Unknown, ..domain }
        } else {
            domain
        }
    }
}

impl SourcePolicy {
    /// No session and no digest is listed twice.
    pub open spec fn wf(&self) -> bool {
        self.domains.wf() && self.sources.wf()
    }
}

impl Default for SourcePolicy {
    /// A policy that says nothing.
    fn default() -> (policy: Self)
        ensures
            policy.wf(),
            policy@ == (SourcePolicyView { domains: Map::empty(), sources: Map::empty() }),
    {
        SourcePolicy { domains: Table::new(), sources: Table::new() }
    }
}

/// A piece of a message, as far as the observer reads it.
#[derive(Debug)]
pub enum Content {
    /// A request to call a tool, with its name and its encoding.
    ToolRequest { id: String, encoding: Option<Vec<u8>> },
    /// The answer to such a request.
    ToolResponse { id: String, encoding: Option<Vec<u8>> },
    /// Anything else.
    Other,
}

pub enum ContentView {
    ToolRequest { id: Seq<char>, encoding: Option<Seq<u8>> },
    ToolResponse { id: Seq<char>, encoding: Option<Seq<u8>> },
    Other,
}

impl View for Content {
    type V = ContentView;

    open spec fn view(&self) -> ContentView {
        match *self {
            Content::ToolRequest { id, encoding } => ContentView::ToolRequest {
                id: id@,
                encoding: encoding_view(encoding),
            },
            Content::ToolResponse { id, encoding } => ContentView::ToolResponse {
                id: id@,
                encoding: encoding_view(encoding),
            },
            Content::Other => ContentView::Other,
        }
    }
}

/// A message: its encoding and its pieces.
#[derive(Debug)]
pub struct Message {
    pub encoding: Option<Vec<u8>>,
    pub content: Vec<Content>,
}

pub struct MessageView {
    pub encoding: Option<Seq<u8>>,
    pub content: Seq<ContentView>,
}

impl View for Message {
    type V = MessageView;

    open spec fn view(&self) -> MessageView {
        MessageView { encoding: encoding_view(self.encoding), content: views(self.content@) }
    }
}

/// The arguments of a model call. What is no text comes by its encoding.
#[derive(Debug)]
pub struct ModelCall {
    pub model_config: Option<Vec<u8>>,
    pub system: String,
    pub messages: Vec<Message>,
    pub tools: Vec<Option<Vec<u8>>>,
    /// Whether these are all the inputs that the provider has.
    pub inputs_complete: bool,
}

pub struct ModelCallView {
    pub model_config: Option<Seq<u8>>,
    pub system: Seq<char>,
    pub messages: Seq<MessageView>,
    pub tools: Seq<Option<Seq<u8>>>,
    pub inputs_complete: bool,
}

impl View for ModelCall {
    type V = ModelCallView;

    open spec fn view(&self) -> ModelCallView {
        ModelCallView {
            model_config: encoding_view(self.model_config),
            system: self.system@,
            messages: views(self.messages@),
            tools: self.tools@.map_values(|encoding: Option<Vec<u8>>| encoding_view(encoding)),
            inputs_complete: self.inputs_complete,
        }
    }
}

/// What is known of a request to call a tool.
#[derive(Debug)]
pub enum Link {
    /// The one request of that name.
    Single(Value),
    /// The name was used more than once, and tells nothing.
    Ambiguous,
}

pub enum LinkView {
    Single(ValueView),
    Ambiguous,
}

impl View for Link {
    type V = LinkView;

    open spec fn view(&self) -> LinkView {
        match *self {
            Link::Single(value) => LinkView::Single(value@),
            Link::Ambiguous => LinkView::Ambiguous,
        }
    }
}

/// Labels the calls of a provider. Nothing of what the provider does is changed by it.
#[derive(Debug)]
pub struct ProviderObserver {
    trace: Trace,
    policy: SourcePolicy,
    sessions: Table<String, Context>,
    session_order: VecDeque<String>,
    requests: Table<(String, String), Link>,
    request_order: VecDeque<(String, String)>,
    warned: bool,
}

/// The name of a request: its session and what it is called there.
pub type RequestName = (Seq<char>, Seq<char>);

/// What an observer stands for.
#[verifier::ext_equal]
pub struct ObserverView {
    pub trace: TraceView,
    pub policy: SourcePolicyView,
    pub sessions: Map<Seq<char>, ContextView>,
    /// The sessions, oldest first.
    pub session_order: Seq<Seq<char>>,
    pub requests: Map<RequestName, LinkView>,
    /// The requests, oldest first.
    pub request_order: Seq<RequestName>,
    /// Whether a failure to write was reported.
    pub warned: bool,
}

impl View for ProviderObserver {
    type V = ObserverView;

    closed spec fn view(&self) -> ObserverView {
        ObserverView {
            trace: self.trace@,
            policy: self.policy@,
            sessions: self.sessions@,
            session_order: views(self.session_order@),
            requests: self.requests@,
            request_order: views(self.request_order@),
            warned: self.warned,
        }
    }
}

/// Whether a list names exactly the keys of a map, each once, and no more than `limit`.
pub open spec fn lists<K, V>(order: Seq<K>, map: Map<K, V>, limit: nat) -> bool {
    &&& order.len() <= limit
    &&& order.no_duplicates()
    &&& forall|key: K| #[trigger] map.contains_key(key) <==> order.contains(key)
}

/// The names that a message's records get.
pub struct MessageIds {
    pub message: Seq<char>,
    /// For each piece, the names of a response's source and of its result.
    pub content: Seq<(Seq<char>, Seq<char>)>,
}

/// The names that the records of a model call get.
pub struct CallIds {
    pub context: Seq<char>,
    pub instructions: Seq<char>,
    pub settings: Seq<char>,
    pub schemas: Seq<Seq<char>>,
    pub messages: Seq<MessageIds>,
    pub exposures: Seq<Seq<char>>,
    pub call: Seq<char>,
}

/// A trace, and the dependencies that were found so far.
#[verifier::ext_equal]
pub struct Gathering {
    pub trace: TraceView,
    pub dependencies: DependenciesView,
}

/// The trace once a source is in it, labeled by the policy.
pub open spec fn source_in(
    trace: TraceView,
    policy: SourcePolicyView,
    encoding: Option<Seq<u8>>,
    id: Seq<char>,
) -> TraceView {
    trace.record(source_record(id, encoding, policy.label(encoding)))
}

/// The value of a source, labeled by the policy.
pub open spec fn source_value(
    policy: SourcePolicyView,
    encoding: Option<Seq<u8>>,
    id: Seq<char>,
) -> ValueView {
    source_record(id, encoding, policy.label(encoding)).value()
}

/// The schemas of a call, in order.
pub open spec fn gather_schemas(
    start: Gathering,
    policy: SourcePolicyView,
    tools: Seq<Option<Seq<u8>>>,
    ids: Seq<Seq<char>>,
) -> Gathering
    decreases tools.len(),
{
    if tools.len() == 0 {
        start
    } else {
        let before = gather_schemas(start, policy, tools.drop_last(), ids.drop_last());
        Gathering {
            trace: source_in(before.trace, policy, tools.last(), ids.last()),
            dependencies: DependenciesView {
                schemas: before.dependencies.schemas.push(ids.last()),
                ..before.dependencies
            },
        }
    }
}

/// The request that a response answers, where there is exactly one.
pub open spec fn request_for(
    requests: Map<RequestName, LinkView>,
    name: RequestName,
) -> Option<ValueView> {
    if requests.contains_key(name) {
        match requests[name] {
            LinkView::Single(value) => Some(value),
            LinkView::Ambiguous => None,
        }
    } else {
        None
    }
}

/// The responses in a message, in order: each is a source, and a result that its request
/// controls.
pub open spec fn gather_responses(
    start: Gathering,
    policy: SourcePolicyView,
    requests: Map<RequestName, LinkView>,
    session_id: Seq<char>,
    content: Seq<ContentView>,
    ids: Seq<(Seq<char>, Seq<char>)>,
) -> Gathering
    decreases content.len(),
{
    if content.len() == 0 {
        start
    } else {
        let before = gather_responses(
            start,
            policy,
            requests,
            session_id,
            content.drop_last(),
            ids.drop_last(),
        );
        match content.last() {
            ContentView::ToolResponse { id, encoding } => Gathering {
                trace: source_in(before.trace, policy, encoding, ids.last().0).record(
                    tool_result_record(
                        ids.last().1,
                        request_for(requests, (session_id, id)),
                        source_value(policy, encoding, ids.last().0),
                        encoding,
                    ),
                ),
                dependencies: DependenciesView {
                    inputs: before.dependencies.inputs.push(ids.last().1),
                    ..before.dependencies
                },
            },
            _ => before,
        }
    }
}

/// The messages of a call, in order: each is a source, and so are the responses in it.
pub open spec fn gather_messages(
    start: Gathering,
    policy: SourcePolicyView,
    requests: Map<RequestName, LinkView>,
    session_id: Seq<char>,
    messages: Seq<MessageView>,
    ids: Seq<MessageIds>,
) -> Gathering
    decreases messages.len(),
{
    if messages.len() == 0 {
        start
    } else {
        let before = gather_messages(
            start,
            policy,
            requests,
            session_id,
            messages.drop_last(),
            ids.drop_last(),
        );
        gather_responses(
            Gathering {
                trace: source_in(
                    before.trace,
                    policy,
                    messages.last().encoding,
                    ids.last().message,
                ),
                dependencies: DependenciesView {
                    history: before.dependencies.history.push(ids.last().message),
                    ..before.dependencies
                },
            },
            policy,
            requests,
            session_id,
            messages.last().content,
            ids.last().content,
        )
    }
}

/// A trace and a context, once values were delivered to the context in order.
pub open spec fn observe_all(
    trace: TraceView,
    context: ContextView,
    references: Seq<Seq<char>>,
    ids: Seq<Seq<char>>,
) -> (TraceView, ContextView)
    decreases references.len(),
{
    if references.len() == 0 {
        (trace, context)
    } else {
        let before = observe_all(trace, context, references.drop_last(), ids.drop_last());
        let record = observe_record(
            before.0,
            ids.last(),
            before.1,
            references.last(),
            Exposure::Delivered,
        );
        (before.0.record(record), ContextView { current: record.value(), ..before.1 })
    }
}

impl ObserverView {
    /// An observer that has seen nothing.
    pub open spec fn empty(policy: SourcePolicyView) -> ObserverView {
        ObserverView {
            trace: TraceView::empty(),
            policy,
            sessions: Map::empty(),
            session_order: Seq::empty(),
            requests: Map::empty(),
            request_order: Seq::empty(),
            warned: false,
        }
    }

    /// The contexts and requests are listed, each once, and there are not too many.
    pub open spec fn bounded(self) -> bool {
        &&& lists(self.session_order, self.sessions, CONTEXTS_KEPT as nat)
        &&& lists(self.request_order, self.requests, REQUESTS_KEPT as nat)
    }

    /// The observer once a session has a context. The oldest one leaves where there are too
    /// many.
    pub open spec fn enter(self, session_id: Seq<char>, id: Seq<char>) -> ObserverView {
        if self.sessions.contains_key(session_id) {
            self
        } else {
            let domain = self.policy.domain(
                session_id,
                self.session_order.len() >= CONTEXTS_KEPT,
            );
            let record = enter_record(id, domain);
            let sessions = self.sessions.insert(
                session_id,
                ContextView { domain: domain.normalized(), current: record.value() },
            );
            let order = self.session_order.push(session_id);
            let full = order.len() > CONTEXTS_KEPT;
            ObserverView {
                trace: self.trace.record(record),
                sessions: if full {
                    sessions.remove(order[0])
                } else {
                    sessions
                },
                session_order: if full {
                    order.drop_first()
                } else {
                    order
                },
                ..self
            }
        }
    }

    /// Everything that a model call depends on, put into the trace.
    pub open spec fn gather(
        self,
        session_id: Seq<char>,
        call: ModelCallView,
        ids: CallIds,
    ) -> Gathering {
        let instructions = source_in(
            self.trace,
            self.policy,
            text_encoding(call.system),
            ids.instructions,
        );
        let settings = source_in(instructions, self.policy, call.model_config, ids.settings);
        let schemas = gather_schemas(
            Gathering {
                trace: settings,
                dependencies: DependenciesView {
                    instructions: seq![ids.instructions],
                    settings: seq![ids.settings],
                    ..DependenciesView::none()
                },
            },
            self.policy,
            call.tools,
            ids.schemas,
        );
        gather_messages(
            schemas,
            self.policy,
            self.requests,
            session_id,
            call.messages,
            ids.messages,
        )
    }

    /// The observer and the value of a model call: all that the call depends on is delivered to
    /// the context of the session, and the call depends on it.
    pub open spec fn request(
        self,
        session_id: Seq<char>,
        call: ModelCallView,
        ids: CallIds,
    ) -> (ObserverView, ValueView) {
        let entered = self.enter(session_id, ids.context);
        let gathered = entered.gather(session_id, call, ids);
        let (trace, context) = observe_all(
            gathered.trace,
            entered.sessions[session_id],
            gathered.dependencies.references(),
            ids.exposures,
        );
        let record = computation_record(
            trace,
            ids.call,
            context,
            gathered.dependencies,
            call.inputs_complete,
        );
        (
            ObserverView {
                trace: trace.record(record),
                sessions: entered.sessions.insert(
                    session_id,
                    ContextView { current: record.value(), ..context },
                ),
                ..entered
            },
            record.value(),
        )
    }

    /// The observer once a request of a tool is known. A name that comes again tells nothing
    /// from then on; the oldest request leaves where there are too many.
    pub open spec fn link(self, name: RequestName, value: ValueView) -> ObserverView {
        if self.requests.contains_key(name) {
            ObserverView { requests: self.requests.insert(name, LinkView::Ambiguous), ..self }
        } else {
            let requests = self.requests.insert(name, LinkView::Single(value));
            let order = self.request_order.push(name);
            let full = order.len() > REQUESTS_KEPT;
            ObserverView {
                requests: if full {
                    requests.remove(order[0])
                } else {
                    requests
                },
                request_order: if full {
                    order.drop_first()
                } else {
                    order
                },
                ..self
            }
        }
    }

    /// The observer once the requests in a response are known, in order.
    pub open spec fn link_all(
        self,
        session_id: Seq<char>,
        response: ValueView,
        content: Seq<ContentView>,
        ids: Seq<Seq<char>>,
    ) -> ObserverView
        decreases content.len(),
    {
        if content.len() == 0 {
            self
        } else {
            let before = self.link_all(session_id, response, content.drop_last(), ids.drop_last());
            match content.last() {
                ContentView::ToolRequest { id, encoding } => {
                    let record = output_record(
                        ids.last(),
                        response,
                        Operation::ToolRequest,
                        encoding,
                    );
                    ObserverView { trace: before.trace.record(record), ..before }.link(
                        (session_id, id),
                        record.value(),
                    )
                },
                _ => before,
            }
        }
    }

    /// The observer once a message of a model call came: it is an output of the call, and so
    /// are the requests in it.
    pub open spec fn response(
        self,
        session_id: Seq<char>,
        invocation: ValueView,
        message: MessageView,
        id: Seq<char>,
        ids: Seq<Seq<char>>,
    ) -> ObserverView {
        let record = output_record(id, invocation, Operation::ModelOutput, message.encoding);
        ObserverView { trace: self.trace.record(record), ..self }.link_all(
            session_id,
            record.value(),
            message.content,
            ids,
        )
    }

    /// The observer once a model call failed: the error is delivered to the context of the
    /// session, where it has one.
    pub open spec fn error(
        self,
        session_id: Seq<char>,
        invocation: ValueView,
        error: Seq<char>,
        id: Seq<char>,
        exposure: Seq<char>,
    ) -> ObserverView {
        let record = output_record(id, invocation, Operation::Error, text_encoding(error));
        let trace = self.trace.record(record);
        if self.sessions.contains_key(session_id) {
            let context = self.sessions[session_id];
            let shown = observe_record(trace, exposure, context, id, Exposure::Delivered);
            ObserverView {
                trace: trace.record(shown),
                sessions: self.sessions.insert(
                    session_id,
                    ContextView { current: shown.value(), ..context },
                ),
                ..self
            }
        } else {
            ObserverView { trace, ..self }
        }
    }
}

/// Whether every name is a drawn identifier.
pub open spec fn all_drawn(ids: Seq<Seq<char>>) -> bool {
    forall|i: int| 0 <= i < ids.len() ==> is_identifier(#[trigger] ids[i])
}

impl MessageIds {
    /// Whether the names are drawn identifiers, enough for `content`.
    pub open spec fn drawn_for(self, content: Seq<ContentView>) -> bool {
        &&& is_identifier(self.message)
        &&& pairs_drawn_for(self.content, content)
    }
}

/// Whether there is a pair for each piece, and the pairs of responses are drawn identifiers.
pub open spec fn pairs_drawn_for(
    ids: Seq<(Seq<char>, Seq<char>)>,
    content: Seq<ContentView>,
) -> bool {
    &&& ids.len() == content.len()
    &&& forall|i: int|
        0 <= i < content.len() && (#[trigger] content[i]) is ToolResponse ==> is_identifier(
            ids[i].0,
        ) && is_identifier(ids[i].1)
}

impl ObserverView {
    /// Whether the names are drawn identifiers, one for each record of the call.
    pub open spec fn drawn_for(
        self,
        session_id: Seq<char>,
        call: ModelCallView,
        ids: CallIds,
    ) -> bool {
        let entered = self.enter(session_id, ids.context);
        &&& self.sessions.contains_key(session_id) || is_identifier(ids.context)
        &&& is_identifier(ids.instructions)
        &&& is_identifier(ids.settings)
        &&& is_identifier(ids.call)
        &&& ids.schemas.len() == call.tools.len()
        &&& all_drawn(ids.schemas)
        &&& messages_drawn_for(ids.messages, call.messages)
        &&& ids.exposures.len() == entered.gather(
            session_id,
            call,
            ids,
        ).dependencies.references().len()
        &&& all_drawn(ids.exposures)
    }
}

/// Whether there is a name for each piece, and those of requests are drawn identifiers.
pub open spec fn requests_drawn_for(ids: Seq<Seq<char>>, content: Seq<ContentView>) -> bool {
    &&& ids.len() == content.len()
    &&& forall|i: int|
        0 <= i < content.len() && (#[trigger] content[i]) is ToolRequest ==> is_identifier(ids[i])
}

/// Whether each message has its names.
pub open spec fn messages_drawn_for(ids: Seq<MessageIds>, messages: Seq<MessageView>) -> bool {
    &&& ids.len() == messages.len()
    &&& forall|i: int|
        0 <= i < messages.len() ==> (#[trigger] ids[i]).drawn_for(messages[i].content)
}

/// Leaving the oldest key out keeps a list in step with its map.
pub(crate) proof fn lemma_lists_rotate<K, V>(order: Seq<K>, map: Map<K, V>, key: K, value: V, limit: nat)
    requires
        lists(order, map, limit),
        !map.contains_key(key),
        limit > 0,
    ensures
        ({
            let longer = order.push(key);
            let larger = map.insert(key, value);
            if longer.len() > limit {
                &&& lists(longer.drop_first(), larger.remove(longer[0]), limit)
                &&& longer[0] != key
            } else {
                lists(longer, larger, limit)
            }
        }),
{
    let longer = order.push(key);
    let larger = map.insert(key, value);
    assert(!order.contains(key));
    assert forall|k: K| #[trigger] larger.contains_key(k) <==> longer.contains(k) by {
        if k == key {
            assert(longer[order.len() as int] == k);
        } else {
            assert(map.contains_key(k) <==> order.contains(k));
            if order.contains(k) {
                let i = order.index_of(k);
                assert(longer[i] == k);
            }
            if longer.contains(k) {
                let i = longer.index_of(k);
                assert(order[i] == k);
            }
        }
    }
    assert forall|i: int, j: int| 0 <= i < j < longer.len() implies longer[i] != longer[j] by {
        if j == order.len() {
            assert(order.contains(order[i]));
        }
    }
    if longer.len() > limit {
        let shorter = longer.drop_first();
        let smaller = larger.remove(longer[0]);
        assert(order.contains(order[0]));
        assert forall|k: K| #[trigger] smaller.contains_key(k) <==> shorter.contains(k) by {
            assert(larger.contains_key(k) <==> longer.contains(k));
            if longer.contains(k) && k != longer[0] {
                let i = longer.index_of(k);
                assert(shorter[i - 1] == k);
            }
            if shorter.contains(k) {
                let i = shorter.index_of(k);
                assert(longer[i + 1] == k);
            }
        }
    }
}

impl ProviderObserver {
    /// The tables list no key twice, and the bounds are kept.
    pub closed spec fn wf(&self) -> bool {
        &&& self.trace.wf()
        &&& self.policy.wf()
        &&& self.sessions.wf()
        &&& self.requests.wf()
        &&& self@.bounded()
    }

    /// An observer is always within its bounds.
    pub proof fn lemma_wf(&self)
        requires
            self.wf(),
        ensures
            self@.bounded(),
            self@.trace.bounded(),
    {
        self.trace.lemma_wf();
    }

    /// An observer to which nothing was said of any source.
    pub fn new() -> (observer: Self)
        ensures
            observer.wf(),
            observer@ == ObserverView::empty(
                SourcePolicyView { domains: Map::empty(), sources: Map::empty() },
            ),
    {
        Self::with_policy(SourcePolicy::default())
    }

    /// An observer that labels sources by the given policy.
    pub fn with_policy(policy: SourcePolicy) -> (observer: Self)
        requires
            policy.wf(),
        ensures
            observer.wf(),
            observer@ == ObserverView::empty(policy@),
    {
        let observer = ProviderObserver {
            trace: Trace::new(),
            policy,
            sessions: Table::new(),
            session_order: VecDeque::new(),
            requests: Table::new(),
            request_order: VecDeque::new(),
            warned: false,
        };
        assert(observer@ =~= ObserverView::empty(policy@));
        observer
    }

    /// Records a source, labeled by the policy.
    fn source(&mut self, encoding: &Option<Vec<u8>>) -> (value: Value)
        requires
            old(self).wf(),
        ensures
            final(self).wf(),
            is_identifier(value@.reference),
            value@ == source_value(old(self)@.policy, encoding_view(*encoding), value@.reference),
            final(self)@ == (ObserverView {
                trace: source_in(
                    old(self)@.trace,
                    old(self)@.policy,
                    encoding_view(*encoding),
                    value@.reference,
                ),
                ..old(self)@
            }),
    {
        let label = match content_digest(encoding) {
            Some(digest) => match self.policy.sources.get(&digest) {
                Some(label) => label.clone(),
                None => Label::Unknown,
            },
            None => Label::Unknown,
        };
        let value = self.trace.source(encoding, label);
        assert(self@ =~= (ObserverView {
            trace: source_in(
                old(self)@.trace,
                old(self)@.policy,
                encoding_view(*encoding),
                value@.reference,
            ),
            ..old(self)@
        }));
        value
    }

    /// Gives a session a context, where it has none.
    fn enter(&mut self, session_id: &str) -> (id: Ghost<Seq<char>>)
        requires
            old(self).wf(),
        ensures
            final(self).wf(),
            !old(self)@.sessions.contains_key(session_id@) ==> is_identifier(id@),
            final(self)@ == old(self)@.enter(session_id@, id@),
            final(self)@.sessions.contains_key(session_id@),
    {
        let key = session_id.to_owned();
        if self.sessions.contains_key(&key) {
            return Ghost(Seq::empty());
        }
        let crowded = self.session_order.len() >= CONTEXTS_KEPT;
        let mut domain = match self.policy.domains.get(&key) {
            Some(domain) => domain.clone(),
            None => Domain {
                audience: Label::Unknown,
                retained_context: Label::Unknown,
                policy_epoch: UNCLASSIFIED_EPOCH.to_owned(),
            },
        };
        if crowded {
            domain.retained_context = Label::Unknown;
        }
        let ghost start = self@;
        let context = self.trace.enter(domain);
        let ghost id = context@.current.reference;
        proof {
            lemma_lists_rotate(
                start.session_order,
                start.sessions,
                session_id@,
                context@,
                CONTEXTS_KEPT as nat,
            );
            lemma_views_push(self.session_order@, key);
        }
        self.sessions.insert(session_id.to_owned(), context);
        self.session_order.push_back(key);
        let ghost order = start.session_order.push(session_id@);
        if self.session_order.len() > CONTEXTS_KEPT {
            if let Some(expired) = self.session_order.pop_front() {
                self.sessions.remove(&expired);
                assert(views(self.session_order@) =~= order.drop_first());
            }
        }
        assert(self@ =~= start.enter(session_id@, id));
        Ghost(id)
    }

    /// Records the schemas of a call as sources.
    fn gather_schemas(
        &mut self,
        tools: &Vec<Option<Vec<u8>>>,
        dependencies: &mut Dependencies,
    ) -> (ids: Ghost<Seq<Seq<char>>>)
        requires
            old(self).wf(),
        ensures
            final(self).wf(),
            ids@.len() == tools@.len(),
            all_drawn(ids@),
            ({
                let gathered = gather_schemas(
                    Gathering { trace: old(self)@.trace, dependencies: old(dependencies)@ },
                    old(self)@.policy,
                    tools@.map_values(|encoding: Option<Vec<u8>>| encoding_view(encoding)),
                    ids@,
                );
                &&& final(self)@ == (ObserverView { trace: gathered.trace, ..old(self)@ })
                &&& final(dependencies)@ == gathered.dependencies
            }),
    {
        let ghost start = self@;
        let ghost first = Gathering { trace: self@.trace, dependencies: dependencies@ };
        let ghost all = tools@.map_values(|encoding: Option<Vec<u8>>| encoding_view(encoding));
        let ghost mut ids: Seq<Seq<char>> = Seq::empty();
        let mut i: usize = 0;
        proof {
            assert(all.take(0) =~= Seq::empty());
            assert(self@ =~= (ObserverView { trace: first.trace, ..start }));
        }
        while i < tools.len()
            invariant
                i <= tools.len(),
                self.wf(),
                ids.len() == i,
                all_drawn(ids),
                all == tools@.map_values(|encoding: Option<Vec<u8>>| encoding_view(encoding)),
                ({
                    let gathered = gather_schemas(first, start.policy, all.take(i as int), ids);
                    &&& self@ == (ObserverView { trace: gathered.trace, ..start })
                    &&& dependencies@ == gathered.dependencies
                }),
            decreases tools.len() - i,
        {
            let reference = self.source(&tools[i]).reference();
            proof {
                lemma_views_push(dependencies.schemas@, reference);
                assert(all.take(i + 1).drop_last() =~= all.take(i as int));
                assert(ids.push(reference@).drop_last() =~= ids);
                ids = ids.push(reference@);
            }
            dependencies.schemas.push(reference);
            i = i + 1;
            proof {
                let gathered = gather_schemas(first, start.policy, all.take(i as int), ids);
                assert(self@ =~= (ObserverView { trace: gathered.trace, ..start }));
            }
        }
        assert(all.take(i as int) =~= all);
        Ghost(ids)
    }

    /// The request that a response answers, where there is exactly one.
    fn find_request(&self, session_id: &str, id: &String) -> (request: Option<Value>)
        requires
            self.wf(),
        ensures
            match request {
                Some(value) => request_for(self@.requests, (session_id@, id@)) == Some(value@),
                None => request_for(self@.requests, (session_id@, id@)) is None,
            },
    {
        let name = (session_id.to_owned(), id.clone());
        match self.requests.get(&name) {
            Some(Link::Single(value)) => Some(value.clone()),
            _ => None,
        }
    }

    /// Records the responses in a message, each with the request that controlled it.
    fn gather_responses(
        &mut self,
        session_id: &str,
        content: &Vec<Content>,
        dependencies: &mut Dependencies,
    ) -> (ids: Ghost<Seq<(Seq<char>, Seq<char>)>>)
        requires
            old(self).wf(),
        ensures
            final(self).wf(),
            pairs_drawn_for(ids@, views(content@)),
            ({
                let gathered = gather_responses(
                    Gathering { trace: old(self)@.trace, dependencies: old(dependencies)@ },
                    old(self)@.policy,
                    old(self)@.requests,
                    session_id@,
                    views(content@),
                    ids@,
                );
                &&& final(self)@ == (ObserverView { trace: gathered.trace, ..old(self)@ })
                &&& final(dependencies)@ == gathered.dependencies
            }),
    {
        let ghost start = self@;
        let ghost first = Gathering { trace: self@.trace, dependencies: dependencies@ };
        let ghost all = views(content@);
        let ghost mut ids: Seq<(Seq<char>, Seq<char>)> = Seq::empty();
        let mut i: usize = 0;
        proof {
            assert(all.take(0) =~= Seq::empty());
            assert(self@ =~= (ObserverView { trace: first.trace, ..start }));
        }
        while i < content.len()
            invariant
                i <= content.len(),
                self.wf(),
                all == views(content@),
                pairs_drawn_for(ids, all.take(i as int)),
                ({
                    let gathered = gather_responses(
                        first,
                        start.policy,
                        start.requests,
                        session_id@,
                        all.take(i as int),
                        ids,
                    );
                    &&& self@ == (ObserverView { trace: gathered.trace, ..start })
                    &&& dependencies@ == gathered.dependencies
                }),
            decreases content.len() - i,
        {
            let ghost before = ids;
            let ghost mut pair: (Seq<char>, Seq<char>) = (Seq::empty(), Seq::empty());
            proof {
                assert(all.take(i + 1).drop_last() =~= all.take(i as int));
                assert(all.take(i + 1).last() == content@[i as int]@);
            }
            if let Content::ToolResponse { id, encoding } = &content[i] {
                let source = self.source(encoding);
                let request = self.find_request(session_id, id);
                let result = self.trace.tool_result(request.as_ref(), &source, encoding);
                let reference = result.reference();
                proof {
                    lemma_views_push(dependencies.inputs@, reference);
                    pair = (source@.reference, reference@);
                }
                dependencies.inputs.push(reference);
            }
            i = i + 1;
            proof {
                ids = before.push(pair);
                assert(ids.drop_last() =~= before);
                assert forall|j: int|
                    0 <= j < i && (#[trigger] all.take(i as int)[j]) is ToolResponse implies is_identifier(
                    ids[j].0,
                ) && is_identifier(ids[j].1) by {
                    if j < i - 1 {
                        assert(all.take(i - 1)[j] is ToolResponse);
                    }
                }
                let gathered = gather_responses(
                    first,
                    start.policy,
                    start.requests,
                    session_id@,
                    all.take(i as int),
                    ids,
                );
                assert(self@ =~= (ObserverView { trace: gathered.trace, ..start }));
            }
        }
        assert(all.take(i as int) =~= all);
        Ghost(ids)
    }

    /// Records the messages of a call, each with the responses in it.
    fn gather_messages(
        &mut self,
        session_id: &str,
        messages: &Vec<Message>,
        dependencies: &mut Dependencies,
    ) -> (ids: Ghost<Seq<MessageIds>>)
        requires
            old(self).wf(),
        ensures
            final(self).wf(),
            messages_drawn_for(ids@, views(messages@)),
            ({
                let gathered = gather_messages(
                    Gathering { trace: old(self)@.trace, dependencies: old(dependencies)@ },
                    old(self)@.policy,
                    old(self)@.requests,
                    session_id@,
                    views(messages@),
                    ids@,
                );
                &&& final(self)@ == (ObserverView { trace: gathered.trace, ..old(self)@ })
                &&& final(dependencies)@ == gathered.dependencies
            }),
    {
        let ghost start = self@;
        let ghost first = Gathering { trace: self@.trace, dependencies: dependencies@ };
        let ghost all = views(messages@);
        let ghost mut ids: Seq<MessageIds> = Seq::empty();
        let mut i: usize = 0;
        proof {
            assert(all.take(0) =~= Seq::empty());
            assert(self@ =~= (ObserverView { trace: first.trace, ..start }));
        }
        while i < messages.len()
            invariant
                i <= messages.len(),
                self.wf(),
                all == views(messages@),
                messages_drawn_for(ids, all.take(i as int)),
                ({
                    let gathered = gather_messages(
                        first,
                        start.policy,
                        start.requests,
                        session_id@,
                        all.take(i as int),
                        ids,
                    );
                    &&& self@ == (ObserverView { trace: gathered.trace, ..start })
                    &&& dependencies@ == gathered.dependencies
                }),
            decreases messages.len() - i,
        {
            let ghost before = ids;
            proof {
                assert(all.take(i + 1).drop_last() =~= all.take(i as int));
                assert(all.take(i + 1).last() == messages@[i as int]@);
            }
            let reference = self.source(&messages[i].encoding).reference();
            let ghost message = reference@;
            proof {
                lemma_views_push(dependencies.history@, reference);
            }
            dependencies.history.push(reference);
            let Ghost(content) = self.gather_responses(
                session_id,
                &messages[i].content,
                dependencies,
            );
            i = i + 1;
            proof {
                let last = MessageIds { message, content };
                ids = before.push(last);
                assert(ids.drop_last() =~= before);
                assert(last.drawn_for(messages@[i - 1]@.content));
                assert forall|j: int| 0 <= j < i implies (#[trigger] ids[j]).drawn_for(
                    all.take(i as int)[j].content,
                ) by {
                    if j < i - 1 {
                        assert(before[j].drawn_for(all.take(i - 1)[j].content));
                    }
                }
                let gathered = gather_messages(
                    first,
                    start.policy,
                    start.requests,
                    session_id@,
                    all.take(i as int),
                    ids,
                );
                assert(self@ =~= (ObserverView { trace: gathered.trace, ..start }));
            }
        }
        assert(all.take(i as int) =~= all);
        Ghost(ids)
    }

    /// Delivers values to a context, in order.
    fn observe_all(trace: &mut Trace, context: &mut Context, references: &Vec<ValueRef>) -> (ids:
        Ghost<Seq<Seq<char>>>)
        requires
            old(trace).wf(),
        ensures
            final(trace).wf(),
            ids@.len() == references@.len(),
            all_drawn(ids@),
            (final(trace)@, final(context)@) == observe_all(
                old(trace)@,
                old(context)@,
                views(references@),
                ids@,
            ),
    {
        let ghost start = (trace@, context@);
        let ghost all = views(references@);
        let ghost mut ids: Seq<Seq<char>> = Seq::empty();
        let mut i: usize = 0;
        assert(all.take(0) =~= Seq::empty());
        while i < references.len()
            invariant
                i <= references.len(),
                trace.wf(),
                ids.len() == i,
                all_drawn(ids),
                all == views(references@),
                (trace@, context@) == observe_all(start.0, start.1, all.take(i as int), ids),
            decreases references.len() - i,
        {
            let value = trace.observe(context, references[i].clone(), Exposure::Delivered);
            proof {
                assert(all.take(i + 1).drop_last() =~= all.take(i as int));
                let before = ids;
                ids = before.push(value@.reference);
                assert(ids.drop_last() =~= before);
            }
            i = i + 1;
        }
        assert(all.take(i as int) =~= all);
        Ghost(ids)
    }

    /// Records a model call: all that it depends on, the delivery of that to the context of its
    /// session, and the call itself. Gives the value that the call's outputs inherit from.
    pub fn request(&mut self, session_id: &str, call: &ModelCall) -> (value: Value)
        requires
            old(self).wf(),
        ensures
            final(self).wf(),
            exists|ids: CallIds|
                old(self)@.drawn_for(session_id@, call@, ids) && (final(self)@, value@)
                    == #[trigger] old(self)@.request(session_id@, call@, ids),
    {
        let ghost start = self@;
        let Ghost(context_id) = self.enter(session_id);
        let ghost entered = self@;
        let mut dependencies = Dependencies::default();
        let instructions = self.source(&encode_text(call.system.as_str())).reference();
        let settings = self.source(&call.model_config).reference();
        let ghost instructions_id = instructions@;
        let ghost settings_id = settings@;
        dependencies.instructions = vec![instructions];
        dependencies.settings = vec![settings];
        proof {
            assert(views(dependencies.instructions@) =~= seq![instructions_id]);
            assert(views(dependencies.settings@) =~= seq![settings_id]);
        }
        let Ghost(schemas) = self.gather_schemas(&call.tools, &mut dependencies);
        let Ghost(messages) = self.gather_messages(session_id, &call.messages, &mut dependencies);
        let key = session_id.to_owned();
        let mut context = self.sessions.get(&key).unwrap().clone();
        let references = dependencies.references();
        let Ghost(exposures) = Self::observe_all(&mut self.trace, &mut context, &references);
        let value = self.trace.computation(&mut context, dependencies, call.inputs_complete);
        self.sessions.insert(key, context);
        proof {
            let ids = CallIds {
                context: context_id,
                instructions: instructions_id,
                settings: settings_id,
                schemas,
                messages,
                exposures,
                call: value@.reference,
            };
            let after = start.request(session_id@, call@, ids);
            let order = entered.session_order;
            assert(self@.sessions.dom() =~= entered.sessions.dom());
            assert forall|name: Seq<char>| #[trigger] self@.sessions.contains_key(name)
                <==> order.contains(name) by {
                assert(entered.sessions.contains_key(name) <==> order.contains(name));
            }
            assert(self@ =~= after.0);
            assert(start.drawn_for(session_id@, call@, ids));
        }
        value
    }

    /// Notes a request of a tool under its name.
    fn link(&mut self, session_id: &str, id: &String, value: Value)
        requires
            old(self).wf(),
        ensures
            final(self).wf(),
            final(self)@ == old(self)@.link((session_id@, id@), value@),
    {
        let ghost start = self@;
        let ghost name = (session_id@, id@);
        let key = (session_id.to_owned(), id.clone());
        if self.requests.contains_key(&key) {
            self.requests.insert(key, Link::Ambiguous);
            proof {
                assert(self@.requests.dom() =~= start.requests.dom());
                assert forall|k: RequestName| #[trigger] self@.requests.contains_key(k)
                    <==> start.request_order.contains(k) by {
                    assert(start.requests.contains_key(k) <==> start.request_order.contains(k));
                }
                assert(self@ =~= start.link(name, value@));
            }
            return;
        }
        proof {
            lemma_lists_rotate(
                start.request_order,
                start.requests,
                name,
                LinkView::Single(value@),
                REQUESTS_KEPT as nat,
            );
        }
        self.requests.insert(key, Link::Single(value));
        let queued = (session_id.to_owned(), id.clone());
        proof {
            lemma_views_push(self.request_order@, queued);
        }
        self.request_order.push_back(queued);
        let ghost order = start.request_order.push(name);
        if self.request_order.len() > REQUESTS_KEPT {
            if let Some(expired) = self.request_order.pop_front() {
                self.requests.remove(&expired);
                assert(views(self.request_order@) =~= order.drop_first());
            }
        }
        assert(self@ =~= start.link(name, value@));
    }

    /// Records a message that a model call gave, and the requests of tools in it.
    pub fn response(&mut self, session_id: &str, invocation: &Value, message: &Message)
        requires
            old(self).wf(),
        ensures
            final(self).wf(),
            exists|id: Seq<char>, ids: Seq<Seq<char>>|
                is_identifier(id) && requests_drawn_for(ids, message@.content) && final(self)@
                    == #[trigger] old(self)@.response(session_id@, invocation@, message@, id, ids),
    {
        let ghost start = self@;
        let response = self.trace.output(invocation, Operation::ModelOutput, &message.encoding);
        let ghost first = self@;
        let ghost all = views(message.content@);
        let ghost mut ids: Seq<Seq<char>> = Seq::empty();
        let mut i: usize = 0;
        assert(all.take(0) =~= Seq::empty());
        while i < message.content.len()
            invariant
                i <= message.content.len(),
                self.wf(),
                all == views(message.content@),
                requests_drawn_for(ids, all.take(i as int)),
                self@ == first.link_all(session_id@, response@, all.take(i as int), ids),
            decreases message.content.len() - i,
        {
            let ghost before = ids;
            let ghost mut drawn: Seq<char> = Seq::empty();
            proof {
                assert(all.take(i + 1).drop_last() =~= all.take(i as int));
                assert(all.take(i + 1).last() == message.content@[i as int]@);
            }
            let ghost earlier = self@;
            if let Content::ToolRequest { id, encoding } = &message.content[i] {
                let value = self.trace.output(&response, Operation::ToolRequest, encoding);
                proof {
                    drawn = value@.reference;
                    let record = output_record(
                        drawn,
                        response@,
                        Operation::ToolRequest,
                        encoding_view(*encoding),
                    );
                    assert(self@ =~= (ObserverView {
                        trace: earlier.trace.record(record),
                        ..earlier
                    }));
                }
                self.link(session_id, id, value);
            }
            i = i + 1;
            proof {
                ids = before.push(drawn);
                assert(ids.drop_last() =~= before);
                assert forall|j: int|
                    0 <= j < i && (#[trigger] all.take(i as int)[j]) is ToolRequest implies is_identifier(
                    ids[j],
                ) by {
                    if j < i - 1 {
                        assert(all.take(i - 1)[j] is ToolRequest);
                    }
                }
            }
        }
        proof {
            assert(all.take(i as int) =~= all);
            let record = output_record(
                response@.reference,
                invocation@,
                Operation::ModelOutput,
                message@.encoding,
            );
            assert(first =~= (ObserverView { trace: start.trace.record(record), ..start }));
            assert(self@ == start.response(
                session_id@,
                invocation@,
                message@,
                response@.reference,
                ids,
            ));
        }
    }

    /// Records that a model call failed with the given error.
    pub fn error(&mut self, session_id: &str, invocation: &Value, error: &str)
        requires
            old(self).wf(),
        ensures
            final(self).wf(),
            exists|id: Seq<char>, exposure: Seq<char>|
                is_identifier(id) && (old(self)@.sessions.contains_key(session_id@)
                    ==> is_identifier(exposure)) && final(self)@ == #[trigger] old(self)@.error(
                    session_id@,
                    invocation@,
                    error@,
                    id,
                    exposure,
                ),
    {
        let ghost start = self@;
        let result = self.trace.output(invocation, Operation::Error, &encode_text(error));
        let ghost id = result@.reference;
        let ghost mut exposure: Seq<char> = Seq::empty();
        let key = session_id.to_owned();
        let known = match self.sessions.get(&key) {
            Some(context) => Some(context.clone()),
            None => None,
        };
        if let Some(context) = known {
            let mut context = context;
            let shown = self.trace.observe(&mut context, result.reference(), Exposure::Delivered);
            self.sessions.insert(key, context);
            proof {
                exposure = shown@.reference;
                assert(self@.sessions.dom() =~= start.sessions.dom());
                assert forall|name: Seq<char>| #[trigger] self@.sessions.contains_key(name)
                    <==> start.session_order.contains(name) by {
                    assert(start.sessions.contains_key(name) <==> start.session_order.contains(
                        name,
                    ));
                }
            }
        }
        assert(self@ =~= start.error(
            session_id@,
            invocation@,
            error@,
            id,
            exposure,
        ));
    }

    /// Whether a failure to write is to be reported: once, when it is first seen.
    pub fn warn_if_failed(&mut self) -> (warn: bool)
        requires
            old(self).wf(),
        ensures
            final(self).wf(),
            warn == (old(self)@.trace.logging_failed && !old(self)@.warned),
            final(self)@ == (ObserverView { warned: old(self)@.warned || warn, ..old(self)@ }),
    {
        let warn = self.trace.logging_failed() && !self.warned;
        if warn {
            self.warned = true;
        }
        assert(self@ =~= (ObserverView { warned: old(self)@.warned || warn, ..old(self)@ }));
        warn
    }

    /// Hands over the records that are to be written, oldest first.
    pub fn take_pending(&mut self) -> (records: Vec<Record>)
        requires
            old(self).wf(),
        ensures
            final(self).wf(),
            views(records@) == old(self)@.trace.pending,
            final(self)@ == (ObserverView {
                trace: TraceView { pending: Seq::empty(), ..old(self)@.trace },
                ..old(self)@
            }),
    {
        let records = self.trace.take_pending();
        assert(self@ =~= (ObserverView {
            trace: TraceView { pending: Seq::empty(), ..old(self)@.trace },
            ..old(self)@
        }));
        records
    }

    /// Takes out the line that is to be written next; none where nothing is left to write.
    pub fn next_line(&mut self) -> (line: Option<Vec<u8>>)
        requires
            old(self).wf(),
        ensures
            final(self).wf(),
            option_view(line) == old(self)@.trace.next_line(),
            final(self)@ == (ObserverView { trace: old(self)@.trace.taken(), ..old(self)@ }),
    {
        let line = self.trace.next_line();
        assert(self@ =~= (ObserverView { trace: old(self)@.trace.taken(), ..old(self)@ }));
        line
    }

    /// Notes whether the line that was taken out could be written. Once one could not, nothing
    /// is written any more.
    pub fn note_written(&mut self, written: bool)
        requires
            old(self).wf(),
        ensures
            final(self).wf(),
            final(self)@ == (ObserverView {
                trace: old(self)@.trace.noted(written),
                ..old(self)@
            }),
    {
        self.trace.note_written(written);
        assert(self@ =~= (ObserverView {
            trace: old(self)@.trace.noted(written),
            ..old(self)@
        }));
    }
}

} // verus!
