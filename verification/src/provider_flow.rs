//! The label of a model call against the labels of its inputs.
use crate::digest::text_encoding;
use crate::label::{join_permits_what_both_permit, LabelView};
use crate::provider::{
    gather_messages, gather_responses, gather_schemas, messages_drawn_for, observe_all,
    request_for, source_in, source_value, CallIds, ContentView, Gathering, LinkView, MessageIds,
    MessageView, ModelCallView, ObserverView, RequestName, SourcePolicyView,
};
use crate::trace::{
    observe_record, output_record, source_record, tool_result_record, ContextView,
    DependenciesView, Exposure, Operation, RecordView, TraceView, ValueView, VALUES_KEPT,
};
use crate::trace_laws::{
    join_all_permits_what_each_permits, lemma_same_records, recent_references_resolve,
    record_all, record_names, same_memory,
};
use vstd::prelude::*;

verus! {

/// A dependency and its label.
pub type Labeled = (Seq<char>, LabelView);

/// The records of a call's schemas.
pub open spec fn schema_records(
    policy: SourcePolicyView,
    tools: Seq<Option<Seq<u8>>>,
    ids: Seq<Seq<char>>,
) -> Seq<RecordView> {
    Seq::new(tools.len(), |i: int| source_record(ids[i], tools[i], policy.label(tools[i])))
}

/// The records of the responses in a message.
pub open spec fn response_records(
    policy: SourcePolicyView,
    requests: Map<RequestName, LinkView>,
    session_id: Seq<char>,
    content: Seq<ContentView>,
    ids: Seq<(Seq<char>, Seq<char>)>,
) -> Seq<RecordView>
    decreases content.len(),
{
    if content.len() == 0 {
        Seq::empty()
    } else {
        let before = response_records(
            policy,
            requests,
            session_id,
            content.drop_last(),
            ids.drop_last(),
        );
        match content.last() {
            ContentView::ToolResponse { id, encoding } => before + seq![
                source_record(ids.last().0, encoding, policy.label(encoding)),
                tool_result_record(
                    ids.last().1,
                    request_for(requests, (session_id, id)),
                    source_value(policy, encoding, ids.last().0),
                    encoding,
                ),
            ],
            _ => before,
        }
    }
}

/// The records of a call's messages.
pub open spec fn message_records(
    policy: SourcePolicyView,
    requests: Map<RequestName, LinkView>,
    session_id: Seq<char>,
    messages: Seq<MessageView>,
    ids: Seq<MessageIds>,
) -> Seq<RecordView>
    decreases messages.len(),
{
    if messages.len() == 0 {
        Seq::empty()
    } else {
        let message = messages.last();
        message_records(policy, requests, session_id, messages.drop_last(), ids.drop_last()) + seq![
            source_record(ids.last().message, message.encoding, policy.label(message.encoding)),
        ] + response_records(policy, requests, session_id, message.content, ids.last().content)
    }
}

/// The records of all that a call depends on.
pub open spec fn input_records(
    observer: ObserverView,
    session_id: Seq<char>,
    call: ModelCallView,
    ids: CallIds,
) -> Seq<RecordView> {
    let policy = observer.policy;
    seq![
        source_record(ids.instructions, text_encoding(call.system), policy.label(text_encoding(call.system))),
        source_record(ids.settings, call.model_config, policy.label(call.model_config)),
    ] + schema_records(policy, call.tools, ids.schemas) + message_records(
        policy,
        observer.requests,
        session_id,
        call.messages,
        ids.messages,
    )
}

/// The records of the deliveries of values to a context.
pub open spec fn exposure_records(
    trace: TraceView,
    context: ContextView,
    references: Seq<Seq<char>>,
    ids: Seq<Seq<char>>,
) -> Seq<RecordView>
    decreases references.len(),
{
    if references.len() == 0 {
        Seq::empty()
    } else {
        let before = observe_all(trace, context, references.drop_last(), ids.drop_last());
        exposure_records(trace, context, references.drop_last(), ids.drop_last()).push(
            observe_record(
                before.0,
                ids.last(),
                before.1,
                references.last(),
                Exposure::Delivered,
            ),
        )
    }
}

/// The schemas of a call, with their labels.
spec fn labeled_schemas(
    policy: SourcePolicyView,
    tools: Seq<Option<Seq<u8>>>,
    ids: Seq<Seq<char>>,
) -> Seq<Labeled> {
    Seq::new(tools.len(), |i: int| (ids[i], policy.label(tools[i]).normalized()))
}

/// The results in a message, with their labels.
spec fn labeled_results(
    policy: SourcePolicyView,
    requests: Map<RequestName, LinkView>,
    session_id: Seq<char>,
    content: Seq<ContentView>,
    ids: Seq<(Seq<char>, Seq<char>)>,
) -> Seq<Labeled>
    decreases content.len(),
{
    if content.len() == 0 {
        Seq::empty()
    } else {
        let before = labeled_results(
            policy,
            requests,
            session_id,
            content.drop_last(),
            ids.drop_last(),
        );
        match content.last() {
            ContentView::ToolResponse { id, encoding } => {
                let record = tool_result_record(
                    ids.last().1,
                    request_for(requests, (session_id, id)),
                    source_value(policy, encoding, ids.last().0),
                    encoding,
                );
                before.push((record.id, record.value().label))
            },
            _ => before,
        }
    }
}

/// The results in all messages, with their labels.
spec fn labeled_inputs(
    policy: SourcePolicyView,
    requests: Map<RequestName, LinkView>,
    session_id: Seq<char>,
    messages: Seq<MessageView>,
    ids: Seq<MessageIds>,
) -> Seq<Labeled>
    decreases messages.len(),
{
    if messages.len() == 0 {
        Seq::empty()
    } else {
        labeled_inputs(policy, requests, session_id, messages.drop_last(), ids.drop_last())
            + labeled_results(
            policy,
            requests,
            session_id,
            messages.last().content,
            ids.last().content,
        )
    }
}

/// The messages, with their labels.
spec fn labeled_history(
    policy: SourcePolicyView,
    messages: Seq<MessageView>,
    ids: Seq<MessageIds>,
) -> Seq<Labeled> {
    Seq::new(
        messages.len(),
        |i: int| (ids[i].message, policy.label(messages[i].encoding).normalized()),
    )
}

/// All that a call depends on, with its labels, in the order of the roles.
spec fn labeled_dependencies(
    observer: ObserverView,
    session_id: Seq<char>,
    call: ModelCallView,
    ids: CallIds,
) -> Seq<Labeled> {
    let policy = observer.policy;
    labeled_inputs(policy, observer.requests, session_id, call.messages, ids.messages) + seq![
        (ids.instructions, policy.label(text_encoding(call.system)).normalized()),
    ] + labeled_history(policy, call.messages, ids.messages) + labeled_schemas(
        policy,
        call.tools,
        ids.schemas,
    ) + seq![(ids.settings, policy.label(call.model_config).normalized())]
}

spec fn names_of(labeled: Seq<Labeled>) -> Seq<Seq<char>> {
    labeled.map_values(|one: Labeled| one.0)
}

/// Whether a record with the name and the label is there.
spec fn recorded(records: Seq<RecordView>, one: Labeled) -> bool {
    exists|i: int|
        0 <= i < records.len() && (#[trigger] records[i]).id == one.0 && records[i].value().label
            == one.1
}

spec fn all_recorded(records: Seq<RecordView>, labeled: Seq<Labeled>) -> bool {
    forall|i: int| 0 <= i < labeled.len() ==> recorded(records, #[trigger] labeled[i])
}

spec fn all_permit(labeled: Seq<Labeled>, audience: LabelView) -> bool {
    forall|i: int| 0 <= i < labeled.len() ==> (#[trigger] labeled[i]).1.permits(audience)
}

proof fn lemma_record_all_concat(trace: TraceView, first: Seq<RecordView>, second: Seq<RecordView>)
    ensures
        record_all(record_all(trace, first), second) == record_all(trace, first + second),
    decreases second.len(),
{
    if second.len() == 0 {
        assert(first + second =~= first);
    } else {
        lemma_record_all_concat(trace, first, second.drop_last());
        assert((first + second).drop_last() =~= first + second.drop_last());
    }
}

proof fn lemma_recorded_within(
    first: Seq<RecordView>,
    second: Seq<RecordView>,
    labeled: Seq<Labeled>,
)
    ensures
        all_recorded(first, labeled) ==> all_recorded(first + second, labeled),
        all_recorded(second, labeled) ==> all_recorded(first + second, labeled),
{
    let both = first + second;
    assert forall|one: Labeled| recorded(first, one) || recorded(second, one) implies recorded(
        both,
        one,
    ) by {
        if recorded(first, one) {
            let i = choose|i: int|
                0 <= i < first.len() && (#[trigger] first[i]).id == one.0 && first[i].value().label
                    == one.1;
            assert(both[i] == first[i]);
        } else {
            let i = choose|i: int|
                0 <= i < second.len() && (#[trigger] second[i]).id == one.0
                    && second[i].value().label == one.1;
            assert(both[first.len() + i] == second[i]);
        }
    }
    if all_recorded(first, labeled) {
        assert forall|i: int| 0 <= i < labeled.len() implies recorded(both, #[trigger] labeled[i]) by {
            assert(recorded(first, labeled[i]));
        }
    }
    if all_recorded(second, labeled) {
        assert forall|i: int| 0 <= i < labeled.len() implies recorded(both, #[trigger] labeled[i]) by {
            assert(recorded(second, labeled[i]));
        }
    }
}

proof fn lemma_recorded_concat(
    records: Seq<RecordView>,
    first: Seq<Labeled>,
    second: Seq<Labeled>,
)
    requires
        all_recorded(records, first),
        all_recorded(records, second),
    ensures
        all_recorded(records, first + second),
{
    assert forall|i: int| 0 <= i < (first + second).len() implies recorded(
        records,
        #[trigger] (first + second)[i],
    ) by {
        if i < first.len() {
            assert(recorded(records, first[i]));
        } else {
            assert(recorded(records, second[i - first.len()]));
        }
    }
}

proof fn lemma_permit_concat(first: Seq<Labeled>, second: Seq<Labeled>, audience: LabelView)
    ensures
        all_permit(first + second, audience) == (all_permit(first, audience) && all_permit(
            second,
            audience,
        )),
{
    let both = first + second;
    if all_permit(both, audience) {
        assert forall|i: int| 0 <= i < first.len() implies (#[trigger] first[i]).1.permits(
            audience,
        ) by {
            assert(both[i] == first[i]);
        }
        assert forall|i: int| 0 <= i < second.len() implies (#[trigger] second[i]).1.permits(
            audience,
        ) by {
            assert(both[first.len() + i] == second[i]);
        }
    }
}

proof fn lemma_schemas(
    start: Gathering,
    policy: SourcePolicyView,
    tools: Seq<Option<Seq<u8>>>,
    ids: Seq<Seq<char>>,
)
    requires
        ids.len() == tools.len(),
    ensures
        ({
            let gathered = gather_schemas(start, policy, tools, ids);
            let records = schema_records(policy, tools, ids);
            &&& gathered.trace == record_all(start.trace, records)
            &&& gathered.dependencies == (DependenciesView {
                schemas: start.dependencies.schemas + ids,
                ..start.dependencies
            })
            &&& names_of(labeled_schemas(policy, tools, ids)) == ids
            &&& all_recorded(records, labeled_schemas(policy, tools, ids))
        }),
    decreases tools.len(),
{
    let records = schema_records(policy, tools, ids);
    let labeled = labeled_schemas(policy, tools, ids);
    if tools.len() > 0 {
        lemma_schemas(start, policy, tools.drop_last(), ids.drop_last());
        assert(records.drop_last() =~= schema_records(policy, tools.drop_last(), ids.drop_last()));
        assert(start.dependencies.schemas + ids =~= (start.dependencies.schemas
            + ids.drop_last()).push(ids.last()));
    } else {
        assert(start.dependencies.schemas + ids =~= start.dependencies.schemas);
    }
    assert(names_of(labeled) =~= ids);
    assert forall|i: int| 0 <= i < labeled.len() implies recorded(records, #[trigger] labeled[i]) by {
        assert(records[i].id == labeled[i].0);
    }
}

proof fn lemma_responses(
    start: Gathering,
    policy: SourcePolicyView,
    requests: Map<RequestName, LinkView>,
    session_id: Seq<char>,
    content: Seq<ContentView>,
    ids: Seq<(Seq<char>, Seq<char>)>,
)
    requires
        ids.len() == content.len(),
    ensures
        ({
            let gathered = gather_responses(start, policy, requests, session_id, content, ids);
            let records = response_records(policy, requests, session_id, content, ids);
            let labeled = labeled_results(policy, requests, session_id, content, ids);
            &&& gathered.trace == record_all(start.trace, records)
            &&& gathered.dependencies == (DependenciesView {
                inputs: start.dependencies.inputs + names_of(labeled),
                ..start.dependencies
            })
            &&& all_recorded(records, labeled)
        }),
    decreases content.len(),
{
    let records = response_records(policy, requests, session_id, content, ids);
    let labeled = labeled_results(policy, requests, session_id, content, ids);
    if content.len() == 0 {
        assert(start.dependencies.inputs + names_of(labeled) =~= start.dependencies.inputs);
    } else {
        let before = response_records(
            policy,
            requests,
            session_id,
            content.drop_last(),
            ids.drop_last(),
        );
        let fewer = labeled_results(
            policy,
            requests,
            session_id,
            content.drop_last(),
            ids.drop_last(),
        );
        lemma_responses(
            start,
            policy,
            requests,
            session_id,
            content.drop_last(),
            ids.drop_last(),
        );
        if let ContentView::ToolResponse { id, encoding } = content.last() {
            let result = tool_result_record(
                ids.last().1,
                request_for(requests, (session_id, id)),
                source_value(policy, encoding, ids.last().0),
                encoding,
            );
            let source = source_record(ids.last().0, encoding, policy.label(encoding));
            assert(records.drop_last() =~= before.push(source));
            assert(before.push(source).drop_last() =~= before);
            assert(record_all(start.trace, before.push(source)) == record_all(
                start.trace,
                before,
            ).record(source));
            assert(records.last() == result);
            assert(record_all(start.trace, records) == record_all(
                start.trace,
                before.push(source),
            ).record(result));
            let last = (result.id, result.value().label);
            assert(labeled == fewer.push(last));
            assert(start.dependencies.inputs + names_of(labeled) =~= (start.dependencies.inputs
                + names_of(fewer)).push(ids.last().1));
            lemma_recorded_within(before, seq![source, result], fewer);
            assert(records[records.len() - 1] == result);
            assert(recorded(records, last));
            lemma_recorded_concat(records, fewer, seq![last]);
            assert(labeled =~= fewer + seq![last]);
        }
    }
}

proof fn lemma_messages(
    start: Gathering,
    policy: SourcePolicyView,
    requests: Map<RequestName, LinkView>,
    session_id: Seq<char>,
    messages: Seq<MessageView>,
    ids: Seq<MessageIds>,
)
    requires
        messages_drawn_for(ids, messages),
    ensures
        ({
            let gathered = gather_messages(start, policy, requests, session_id, messages, ids);
            let records = message_records(policy, requests, session_id, messages, ids);
            let inputs = labeled_inputs(policy, requests, session_id, messages, ids);
            let history = labeled_history(policy, messages, ids);
            &&& gathered.trace == record_all(start.trace, records)
            &&& gathered.dependencies == (DependenciesView {
                inputs: start.dependencies.inputs + names_of(inputs),
                history: start.dependencies.history + names_of(history),
                ..start.dependencies
            })
            &&& all_recorded(records, inputs)
            &&& all_recorded(records, history)
        }),
    decreases messages.len(),
{
    let records = message_records(policy, requests, session_id, messages, ids);
    let inputs = labeled_inputs(policy, requests, session_id, messages, ids);
    let history = labeled_history(policy, messages, ids);
    if messages.len() == 0 {
        assert(start.dependencies.inputs + names_of(inputs) =~= start.dependencies.inputs);
        assert(start.dependencies.history + names_of(history) =~= start.dependencies.history);
    } else {
        let message = messages.last();
        let last = ids.last();
        assert(ids[ids.len() - 1].drawn_for(messages[messages.len() - 1].content));
        assert(messages_drawn_for(ids.drop_last(), messages.drop_last())) by {
            assert forall|i: int| 0 <= i < messages.len() - 1 implies (#[trigger] ids.drop_last()[i]).drawn_for(
                messages.drop_last()[i].content,
            ) by {
                assert(ids[i].drawn_for(messages[i].content));
            }
        }
        lemma_messages(
            start,
            policy,
            requests,
            session_id,
            messages.drop_last(),
            ids.drop_last(),
        );
        let before = gather_messages(
            start,
            policy,
            requests,
            session_id,
            messages.drop_last(),
            ids.drop_last(),
        );
        let earlier = message_records(
            policy,
            requests,
            session_id,
            messages.drop_last(),
            ids.drop_last(),
        );
        let source = source_record(
            last.message,
            message.encoding,
            policy.label(message.encoding),
        );
        let responses = response_records(
            policy,
            requests,
            session_id,
            message.content,
            last.content,
        );
        let middle = Gathering {
            trace: source_in(before.trace, policy, message.encoding, last.message),
            dependencies: DependenciesView {
                history: before.dependencies.history.push(last.message),
                ..before.dependencies
            },
        };
        lemma_responses(middle, policy, requests, session_id, message.content, last.content);
        let upto = earlier + seq![source];
        assert(upto.drop_last() =~= earlier);
        assert(middle.trace == record_all(start.trace, upto));
        lemma_record_all_concat(start.trace, upto, responses);
        assert(records == upto + responses);
        let fewer_inputs = labeled_inputs(
            policy,
            requests,
            session_id,
            messages.drop_last(),
            ids.drop_last(),
        );
        let results = labeled_results(
            policy,
            requests,
            session_id,
            message.content,
            last.content,
        );
        assert(names_of(inputs) =~= names_of(fewer_inputs) + names_of(results));
        assert(start.dependencies.inputs + names_of(inputs) =~= (start.dependencies.inputs
            + names_of(fewer_inputs)) + names_of(results));
        let fewer_history = labeled_history(policy, messages.drop_last(), ids.drop_last());
        let one = (last.message, source.value().label);
        assert(history =~= fewer_history + seq![one]);
        assert(names_of(history) =~= names_of(fewer_history).push(last.message));
        assert(start.dependencies.history + names_of(history) =~= (start.dependencies.history
            + names_of(fewer_history)).push(last.message));
        lemma_recorded_within(earlier, seq![source], fewer_inputs);
        lemma_recorded_within(earlier, seq![source], fewer_history);
        assert(upto[earlier.len() as int] == source);
        assert(recorded(upto, one));
        lemma_recorded_concat(upto, fewer_history, seq![one]);
        lemma_recorded_within(upto, responses, fewer_inputs);
        lemma_recorded_within(upto, responses, history);
        lemma_recorded_within(upto, responses, results);
        lemma_recorded_concat(records, fewer_inputs, results);
    }
}

proof fn lemma_gather(
    observer: ObserverView,
    session_id: Seq<char>,
    call: ModelCallView,
    ids: CallIds,
)
    requires
        ids.schemas.len() == call.tools.len(),
        messages_drawn_for(ids.messages, call.messages),
    ensures
        ({
            let gathered = observer.gather(session_id, call, ids);
            let records = input_records(observer, session_id, call, ids);
            let labeled = labeled_dependencies(observer, session_id, call, ids);
            &&& gathered.trace == record_all(observer.trace, records)
            &&& gathered.dependencies.references() == names_of(labeled)
            &&& all_recorded(records, labeled)
        }),
{
    let policy = observer.policy;
    let gathered = observer.gather(session_id, call, ids);
    let instructions = source_record(ids.instructions, text_encoding(call.system), policy.label(text_encoding(call.system)));
    let settings = source_record(
        ids.settings,
        call.model_config,
        policy.label(call.model_config),
    );
    let head = seq![instructions, settings];
    assert(head.drop_last() =~= seq![instructions]);
    assert(seq![instructions].drop_last() =~= Seq::empty());
    assert(record_all(observer.trace, seq![instructions]) == observer.trace.record(instructions)) by {
        reveal_with_fuel(record_all, 2);
    }
    let start = Gathering {
        trace: record_all(observer.trace, head),
        dependencies: DependenciesView {
            instructions: seq![ids.instructions],
            settings: seq![ids.settings],
            ..DependenciesView::none()
        },
    };
    let schemas = schema_records(policy, call.tools, ids.schemas);
    let messages = message_records(
        policy,
        observer.requests,
        session_id,
        call.messages,
        ids.messages,
    );
    lemma_schemas(start, policy, call.tools, ids.schemas);
    let middle = gather_schemas(start, policy, call.tools, ids.schemas);
    lemma_messages(
        middle,
        policy,
        observer.requests,
        session_id,
        call.messages,
        ids.messages,
    );
    lemma_record_all_concat(observer.trace, head, schemas);
    lemma_record_all_concat(observer.trace, head + schemas, messages);
    let inputs = labeled_inputs(
        policy,
        observer.requests,
        session_id,
        call.messages,
        ids.messages,
    );
    let history = labeled_history(policy, call.messages, ids.messages);
    let tools = labeled_schemas(policy, call.tools, ids.schemas);
    let first = (ids.instructions, instructions.value().label);
    let second = (ids.settings, settings.value().label);
    let labeled = labeled_dependencies(observer, session_id, call, ids);
    assert(names_of(labeled) =~= gathered.dependencies.references());
    let records = input_records(observer, session_id, call, ids);
    lemma_recorded_within(head, schemas, tools);
    lemma_recorded_within(head + schemas, messages, tools);
    lemma_recorded_within(head + schemas, messages, inputs);
    lemma_recorded_within(head + schemas, messages, history);
    assert(records[0] == instructions);
    assert(records[1] == settings);
    assert(recorded(records, first));
    assert(recorded(records, second));
    lemma_recorded_concat(records, inputs, seq![first]);
    lemma_recorded_concat(records, inputs + seq![first], history);
    lemma_recorded_concat(records, inputs + seq![first] + history, tools);
    lemma_recorded_concat(records, inputs + seq![first] + history + tools, seq![second]);
}

pub(crate) proof fn lemma_exposures(
    trace: TraceView,
    context: ContextView,
    references: Seq<Seq<char>>,
    ids: Seq<Seq<char>>,
)
    requires
        ids.len() == references.len(),
    ensures
        observe_all(trace, context, references, ids).0 == record_all(
            trace,
            exposure_records(trace, context, references, ids),
        ),
        exposure_records(trace, context, references, ids).len() == references.len(),
    decreases references.len(),
{
    if references.len() > 0 {
        lemma_exposures(trace, context, references.drop_last(), ids.drop_last());
        let records = exposure_records(trace, context, references, ids);
        assert(records.drop_last() =~= exposure_records(
            trace,
            context,
            references.drop_last(),
            ids.drop_last(),
        ));
    }
}

/// What a trace says of a name is what was last recorded of it, or nothing.
proof fn lemma_last_word(trace: TraceView, records: Seq<RecordView>, i: int)
    requires
        0 <= i < records.len(),
        record_names(records).no_duplicates(),
    ensures
        ({
            let after = record_all(trace, records);
            after.labels.contains_key(records[i].id) ==> after.labels[records[i].id]
                == records[i].value().label
        }),
    decreases records.len(),
{
    let names = record_names(records);
    if i < records.len() - 1 {
        assert(names[i] != names[records.len() - 1]);
        assert(record_names(records.drop_last()) =~= names.drop_last());
        lemma_last_word(trace, records.drop_last(), i);
    }
}

/// Whether the records have names of their own, which the trace has not seen.
pub open spec fn fresh_names(trace: TraceView, records: Seq<RecordView>) -> bool {
    &&& record_names(records).no_duplicates()
    &&& forall|i: int|
        0 <= i < records.len() ==> !trace.order.contains((#[trigger] records[i]).id)
}

/// Whether every response in a message has a request that controls it, and both permit the
/// audience.
pub open spec fn results_permit(
    policy: SourcePolicyView,
    requests: Map<RequestName, LinkView>,
    session_id: Seq<char>,
    content: Seq<ContentView>,
    audience: LabelView,
) -> bool {
    forall|i: int|
        0 <= i < content.len() ==> ((#[trigger] content[i]) matches ContentView::ToolResponse {
            id,
            encoding,
        } ==> policy.label(encoding).permits(audience) && (request_for(requests, (session_id, id))
            matches Some(request) && request.label.permits(audience)))
}

/// Whether every input of a call permits the audience: its instructions, its settings, its
/// schemas, its messages, and the responses in them with their requests.
pub open spec fn inputs_permit(
    observer: ObserverView,
    session_id: Seq<char>,
    call: ModelCallView,
    audience: LabelView,
) -> bool {
    let policy = observer.policy;
    &&& policy.label(text_encoding(call.system)).permits(audience)
    &&& policy.label(call.model_config).permits(audience)
    &&& forall|i: int|
        0 <= i < call.tools.len() ==> policy.label(#[trigger] call.tools[i]).permits(audience)
    &&& forall|i: int|
        0 <= i < call.messages.len() ==> {
            &&& policy.label((#[trigger] call.messages[i]).encoding).permits(audience)
            &&& results_permit(
                policy,
                observer.requests,
                session_id,
                call.messages[i].content,
                audience,
            )
        }
}

proof fn lemma_results_permit(
    policy: SourcePolicyView,
    requests: Map<RequestName, LinkView>,
    session_id: Seq<char>,
    content: Seq<ContentView>,
    ids: Seq<(Seq<char>, Seq<char>)>,
    audience: LabelView,
)
    ensures
        all_permit(labeled_results(policy, requests, session_id, content, ids), audience)
            == results_permit(policy, requests, session_id, content, audience),
    decreases content.len(),
{
    let labeled = labeled_results(policy, requests, session_id, content, ids);
    if content.len() > 0 {
        let fewer = content.drop_last();
        let before = labeled_results(policy, requests, session_id, fewer, ids.drop_last());
        lemma_results_permit(policy, requests, session_id, fewer, ids.drop_last(), audience);
        let n = content.len() - 1;
        assert(results_permit(policy, requests, session_id, content, audience) ==> results_permit(
            policy,
            requests,
            session_id,
            fewer,
            audience,
        )) by {
            if results_permit(policy, requests, session_id, content, audience) {
                assert forall|i: int| 0 <= i < fewer.len() implies ((#[trigger] fewer[i])
                    matches ContentView::ToolResponse { id, encoding } ==> policy.label(
                    encoding,
                ).permits(audience) && (request_for(requests, (session_id, id)) matches Some(
                    request,
                ) && request.label.permits(audience))) by {
                    assert(content[i] == fewer[i]);
                }
            }
        }
        assert(forall|i: int| 0 <= i < n ==> #[trigger] content[i] == fewer[i]);
        if let ContentView::ToolResponse { id, encoding } = content.last() {
            let record = tool_result_record(
                ids.last().1,
                request_for(requests, (session_id, id)),
                source_value(policy, encoding, ids.last().0),
                encoding,
            );
            let last = (record.id, record.value().label);
            assert(labeled =~= before + seq![last]);
            lemma_permit_concat(before, seq![last], audience);
            assert(all_permit(seq![last], audience) == last.1.permits(audience)) by {
                assert(seq![last][0] == last);
            }
            if let Some(request) = request_for(requests, (session_id, id)) {
                join_permits_what_both_permit(
                    request.label,
                    policy.label(encoding).normalized(),
                    audience,
                );
            }
            assert(content[n] == content.last());
        }
    }
}

proof fn lemma_inputs_permit(
    policy: SourcePolicyView,
    requests: Map<RequestName, LinkView>,
    session_id: Seq<char>,
    messages: Seq<MessageView>,
    ids: Seq<MessageIds>,
    audience: LabelView,
)
    ensures
        all_permit(labeled_inputs(policy, requests, session_id, messages, ids), audience) == (forall|
            i: int,
        |
            0 <= i < messages.len() ==> results_permit(
                policy,
                requests,
                session_id,
                (#[trigger] messages[i]).content,
                audience,
            )),
    decreases messages.len(),
{
    if messages.len() > 0 {
        let fewer = messages.drop_last();
        lemma_inputs_permit(policy, requests, session_id, fewer, ids.drop_last(), audience);
        lemma_results_permit(
            policy,
            requests,
            session_id,
            messages.last().content,
            ids.last().content,
            audience,
        );
        lemma_permit_concat(
            labeled_inputs(policy, requests, session_id, fewer, ids.drop_last()),
            labeled_results(
                policy,
                requests,
                session_id,
                messages.last().content,
                ids.last().content,
            ),
            audience,
        );
        let n = messages.len() - 1;
        assert(messages[n] == messages.last());
        assert(forall|i: int| 0 <= i < n ==> #[trigger] messages[i] == fewer[i]);
        assert(forall|i: int| 0 <= i < n ==> messages[i] == #[trigger] fewer[i]);
    }
}

proof fn lemma_dependencies_permit(
    observer: ObserverView,
    session_id: Seq<char>,
    call: ModelCallView,
    ids: CallIds,
    audience: LabelView,
)
    ensures
        all_permit(labeled_dependencies(observer, session_id, call, ids), audience)
            == inputs_permit(observer, session_id, call, audience),
{
    let policy = observer.policy;
    let inputs = labeled_inputs(
        policy,
        observer.requests,
        session_id,
        call.messages,
        ids.messages,
    );
    let history = labeled_history(policy, call.messages, ids.messages);
    let tools = labeled_schemas(policy, call.tools, ids.schemas);
    let first = (ids.instructions, policy.label(text_encoding(call.system)).normalized());
    let second = (ids.settings, policy.label(call.model_config).normalized());
    lemma_inputs_permit(
        policy,
        observer.requests,
        session_id,
        call.messages,
        ids.messages,
        audience,
    );
    lemma_permit_concat(inputs, seq![first], audience);
    lemma_permit_concat(inputs + seq![first], history, audience);
    lemma_permit_concat(inputs + seq![first] + history, tools, audience);
    lemma_permit_concat(inputs + seq![first] + history + tools, seq![second], audience);
    assert(seq![first][0] == first);
    assert(seq![second][0] == second);
    assert(all_permit(seq![first], audience) == first.1.permits(audience));
    assert(all_permit(seq![second], audience) == second.1.permits(audience));
    if all_permit(history, audience) {
        assert forall|i: int| 0 <= i < call.messages.len() implies policy.label(
            (#[trigger] call.messages[i]).encoding,
        ).permits(audience) by {
            assert(history[i].1.permits(audience));
        }
    }
    if all_permit(tools, audience) {
        assert forall|i: int| 0 <= i < call.tools.len() implies policy.label(
            #[trigger] call.tools[i],
        ).permits(audience) by {
            assert(tools[i].1.permits(audience));
        }
    }
    if inputs_permit(observer, session_id, call, audience) {
        assert forall|i: int| 0 <= i < history.len() implies (#[trigger] history[i]).1.permits(
            audience,
        ) by {
            assert(policy.label(call.messages[i].encoding).permits(audience));
        }
        assert forall|i: int| 0 <= i < tools.len() implies (#[trigger] tools[i]).1.permits(
            audience,
        ) by {
            assert(policy.label(call.tools[i]).permits(audience));
        }
    }
}

/// The records of a model call but for the call itself: its inputs, and their delivery to the
/// context.
pub open spec fn call_records(
    observer: ObserverView,
    session_id: Seq<char>,
    call: ModelCallView,
    ids: CallIds,
) -> Seq<RecordView> {
    let inputs = input_records(observer, session_id, call, ids);
    inputs + exposure_records(
        record_all(observer.trace, inputs),
        observer.sessions[session_id],
        observer.gather(session_id, call, ids).dependencies.references(),
        ids.exposures,
    )
}

pub(crate) proof fn lemma_call_records(
    observer: ObserverView,
    session_id: Seq<char>,
    call: ModelCallView,
    ids: CallIds,
)
    requires
        ids.schemas.len() == call.tools.len(),
        messages_drawn_for(ids.messages, call.messages),
        ids.exposures.len() == observer.gather(
            session_id,
            call,
            ids,
        ).dependencies.references().len(),
    ensures
        ({
            let gathered = observer.gather(session_id, call, ids);
            observe_all(
                gathered.trace,
                observer.sessions[session_id],
                gathered.dependencies.references(),
                ids.exposures,
            ).0 == record_all(observer.trace, call_records(observer, session_id, call, ids))
        }),
{
    let gathered = observer.gather(session_id, call, ids);
    let context = observer.sessions[session_id];
    let references = gathered.dependencies.references();
    lemma_gather(observer, session_id, call, ids);
    lemma_exposures(gathered.trace, context, references, ids.exposures);
    lemma_record_all_concat(
        observer.trace,
        input_records(observer, session_id, call, ids),
        exposure_records(gathered.trace, context, references, ids.exposures),
    );
}

proof fn lemma_observe_narrows(
    trace: TraceView,
    context: ContextView,
    references: Seq<Seq<char>>,
    ids: Seq<Seq<char>>,
    audience: LabelView,
)
    requires
        observe_all(trace, context, references, ids).1.current.label.permits(audience),
    ensures
        context.current.label.permits(audience),
    decreases references.len(),
{
    if references.len() > 0 {
        let before = observe_all(trace, context, references.drop_last(), ids.drop_last());
        join_permits_what_both_permit(
            before.1.current.label,
            before.0.resolve(references.last()),
            audience,
        );
        lemma_observe_narrows(trace, context, references.drop_last(), ids.drop_last(), audience);
    }
}

/// Whether a record of that name permits the audience.
spec fn backed(records: Seq<RecordView>, name: Seq<char>, audience: LabelView) -> bool {
    exists|i: int|
        0 <= i < records.len() && (#[trigger] records[i]).id == name
            && records[i].value().label.permits(audience)
}

proof fn lemma_context_permits(
    trace: TraceView,
    inputs: Seq<RecordView>,
    context: ContextView,
    references: Seq<Seq<char>>,
    ids: Seq<Seq<char>>,
    audience: LabelView,
)
    requires
        trace.bounded(),
        ids.len() == references.len(),
        context.current.label.permits(audience),
        forall|i: int|
            0 <= i < references.len() ==> backed(inputs, #[trigger] references[i], audience),
        ({
            let records = inputs + exposure_records(
                record_all(trace, inputs),
                context,
                references,
                ids,
            );
            fresh_names(trace, records) && records.len() <= VALUES_KEPT
        }),
    ensures
        observe_all(record_all(trace, inputs), context, references, ids).1.current.label.permits(
            audience,
        ),
        forall|i: int|
            0 <= i < references.len() ==> observe_all(
                record_all(trace, inputs),
                context,
                references,
                ids,
            ).0.resolve(#[trigger] references[i]).permits(audience),
    decreases references.len(),
{
    let base = record_all(trace, inputs);
    let exposures = exposure_records(base, context, references, ids);
    let records = inputs + exposures;
    lemma_exposures(base, context, references, ids);
    lemma_record_all_concat(trace, inputs, exposures);
    let after = observe_all(base, context, references, ids).0;
    assert(after == record_all(trace, records));
    assert forall|i: int| 0 <= i < references.len() implies after.resolve(
        #[trigger] references[i],
    ).permits(audience) by {
        assert(backed(inputs, references[i], audience));
        let j = choose|j: int|
            0 <= j < inputs.len() && (#[trigger] inputs[j]).id == references[i]
                && inputs[j].value().label.permits(audience);
        assert(records[j] == inputs[j]);
        recent_references_resolve(trace, records, j);
    }
    if references.len() > 0 {
        let fewer = references.drop_last();
        let shorter = ids.drop_last();
        let earlier = inputs + exposure_records(base, context, fewer, shorter);
        assert(earlier =~= records.drop_last());
        assert(fresh_names(trace, earlier)) by {
            assert(record_names(earlier) =~= record_names(records).drop_last());
            assert forall|i: int| 0 <= i < earlier.len() implies !trace.order.contains(
                (#[trigger] earlier[i]).id,
            ) by {
                assert(earlier[i] == records[i]);
            }
        }
        assert forall|i: int| 0 <= i < fewer.len() implies backed(
            inputs,
            #[trigger] fewer[i],
            audience,
        ) by {
            assert(fewer[i] == references[i]);
        }
        lemma_context_permits(trace, inputs, context, fewer, shorter, audience);
        let before = observe_all(base, context, fewer, shorter);
        lemma_exposures(base, context, fewer, shorter);
        lemma_record_all_concat(trace, inputs, exposure_records(base, context, fewer, shorter));
        assert(before.0 == record_all(trace, earlier));
        let last = references.last();
        assert(backed(inputs, references[references.len() - 1], audience));
        let j = choose|j: int|
            0 <= j < inputs.len() && (#[trigger] inputs[j]).id == last
                && inputs[j].value().label.permits(audience);
        assert(earlier[j] == inputs[j]);
        recent_references_resolve(trace, earlier, j);
        join_permits_what_both_permit(
            before.1.current.label,
            before.0.resolve(last),
            audience,
        );
    }
}

/// A model call permits no audience that its context or one of its inputs denies: what it gives
/// is at most for the readers that all of them permit. The identifiers that were drawn must be
/// different ones.
pub proof fn calls_permit_no_more_than_their_inputs(
    observer: ObserverView,
    session_id: Seq<char>,
    call: ModelCallView,
    ids: CallIds,
    audience: LabelView,
)
    requires
        observer.drawn_for(session_id, call, ids),
        record_names(
            call_records(observer.enter(session_id, ids.context), session_id, call, ids),
        ).no_duplicates(),
        observer.request(session_id, call, ids).1.label.permits(audience),
    ensures
        observer.enter(session_id, ids.context).sessions[session_id].current.label.permits(audience),
        inputs_permit(observer, session_id, call, audience),
{
    let entered = observer.enter(session_id, ids.context);
    let context = entered.sessions[session_id];
    let inputs = input_records(entered, session_id, call, ids);
    let records = call_records(entered, session_id, call, ids);
    let labeled = labeled_dependencies(entered, session_id, call, ids);
    let gathered = entered.gather(session_id, call, ids);
    let references = gathered.dependencies.references();
    lemma_gather(entered, session_id, call, ids);
    lemma_exposures(gathered.trace, context, references, ids.exposures);
    let exposures = exposure_records(gathered.trace, context, references, ids.exposures);
    lemma_record_all_concat(entered.trace, inputs, exposures);
    let observed = observe_all(gathered.trace, context, references, ids.exposures);
    assert(observed.0 == record_all(entered.trace, records));
    join_all_permits_what_each_permits(
        observed.0,
        observed.1.current.label,
        references,
        audience,
    );
    lemma_observe_narrows(gathered.trace, context, references, ids.exposures, audience);
    assert forall|i: int| 0 <= i < labeled.len() implies (#[trigger] labeled[i]).1.permits(
        audience,
    ) by {
        assert(recorded(inputs, labeled[i]));
        let j = choose|j: int|
            0 <= j < inputs.len() && (#[trigger] inputs[j]).id == labeled[i].0
                && inputs[j].value().label == labeled[i].1;
        assert(records[j] == inputs[j]);
        assert(references[i] == labeled[i].0);
        lemma_last_word(entered.trace, records, j);
        assert(observed.0.resolve(references[i]).permits(audience));
    }
    lemma_dependencies_permit(entered, session_id, call, ids, audience);
}

/// A model call whose inputs are all given permits every audience that its context and all its
/// inputs permit, as long as the records of the call fit into the trace and the identifiers
/// that were drawn are new ones.
pub proof fn calls_permit_all_that_their_inputs_permit(
    observer: ObserverView,
    session_id: Seq<char>,
    call: ModelCallView,
    ids: CallIds,
    audience: LabelView,
)
    requires
        call.inputs_complete,
        observer.drawn_for(session_id, call, ids),
        ({
            let entered = observer.enter(session_id, ids.context);
            let records = call_records(entered, session_id, call, ids);
            &&& entered.trace.bounded()
            &&& fresh_names(entered.trace, records)
            &&& records.len() <= VALUES_KEPT
            &&& entered.sessions[session_id].current.label.permits(audience)
        }),
        inputs_permit(observer, session_id, call, audience),
    ensures
        observer.request(session_id, call, ids).1.label.permits(audience),
{
    let entered = observer.enter(session_id, ids.context);
    let context = entered.sessions[session_id];
    let inputs = input_records(entered, session_id, call, ids);
    let labeled = labeled_dependencies(entered, session_id, call, ids);
    let gathered = entered.gather(session_id, call, ids);
    let references = gathered.dependencies.references();
    lemma_gather(entered, session_id, call, ids);
    lemma_dependencies_permit(entered, session_id, call, ids, audience);
    assert forall|i: int| 0 <= i < references.len() implies backed(
        inputs,
        #[trigger] references[i],
        audience,
    ) by {
        assert(references[i] == labeled[i].0);
        assert(labeled[i].1.permits(audience));
        assert(recorded(inputs, labeled[i]));
        let j = choose|j: int|
            0 <= j < inputs.len() && (#[trigger] inputs[j]).id == labeled[i].0
                && inputs[j].value().label == labeled[i].1;
        assert(inputs[j].id == references[i]);
    }
    lemma_context_permits(
        entered.trace,
        inputs,
        context,
        references,
        ids.exposures,
        audience,
    );
    let observed = observe_all(gathered.trace, context, references, ids.exposures);
    join_all_permits_what_each_permits(
        observed.0,
        observed.1.current.label,
        references,
        audience,
    );
}

proof fn lemma_same_observations(
    left: TraceView,
    right: TraceView,
    context: ContextView,
    references: Seq<Seq<char>>,
    ids: Seq<Seq<char>>,
)
    requires
        same_memory(left, right),
    ensures
        same_memory(
            observe_all(left, context, references, ids).0,
            observe_all(right, context, references, ids).0,
        ),
        observe_all(left, context, references, ids).1 == observe_all(
            right,
            context,
            references,
            ids,
        ).1,
    decreases references.len(),
{
    if references.len() > 0 {
        lemma_same_observations(
            left,
            right,
            context,
            references.drop_last(),
            ids.drop_last(),
        );
    }
}

proof fn lemma_same_joins(
    left: TraceView,
    right: TraceView,
    start: LabelView,
    references: Seq<Seq<char>>,
)
    requires
        same_memory(left, right),
    ensures
        left.join_all(start, references) == right.join_all(start, references),
    decreases references.len(),
{
    if references.len() > 0 {
        lemma_same_joins(left, right, start, references.drop_last());
    }
}

/// Whether records can be written changes neither the label of a call nor what is remembered
/// after it.
pub proof fn failed_logging_changes_no_call(
    observer: ObserverView,
    session_id: Seq<char>,
    call: ModelCallView,
    ids: CallIds,
)
    requires
        ids.schemas.len() == call.tools.len(),
        messages_drawn_for(ids.messages, call.messages),
    ensures
        ({
            let silent = ObserverView {
                trace: TraceView { logging_failed: true, ..observer.trace },
                ..observer
            };
            let spoken = observer.request(session_id, call, ids);
            let unspoken = silent.request(session_id, call, ids);
            &&& unspoken.1 == spoken.1
            &&& same_but_for_writing(unspoken.0, spoken.0)
        }),
{
    let silent = ObserverView {
        trace: TraceView { logging_failed: true, ..observer.trace },
        ..observer
    };
    let left = observer.enter(session_id, ids.context);
    let right = silent.enter(session_id, ids.context);
    lemma_gather(left, session_id, call, ids);
    lemma_gather(right, session_id, call, ids);
    let records = input_records(left, session_id, call, ids);
    assert(records == input_records(right, session_id, call, ids));
    lemma_same_records(left.trace, right.trace, records);
    let gathered = left.gather(session_id, call, ids);
    let other = right.gather(session_id, call, ids);
    let references = gathered.dependencies.references();
    lemma_same_dependencies(left, right, session_id, call, ids);
    lemma_same_observations(
        gathered.trace,
        other.trace,
        left.sessions[session_id],
        references,
        ids.exposures,
    );
    let observed = observe_all(
        gathered.trace,
        left.sessions[session_id],
        references,
        ids.exposures,
    );
    let unseen = observe_all(
        other.trace,
        left.sessions[session_id],
        references,
        ids.exposures,
    );
    lemma_same_joins(observed.0, unseen.0, observed.1.current.label, references);
}

proof fn lemma_same_dependencies(
    left: ObserverView,
    right: ObserverView,
    session_id: Seq<char>,
    call: ModelCallView,
    ids: CallIds,
)
    requires
        left.policy == right.policy,
        left.requests == right.requests,
        ids.schemas.len() == call.tools.len(),
        messages_drawn_for(ids.messages, call.messages),
    ensures
        left.gather(session_id, call, ids).dependencies == right.gather(
            session_id,
            call,
            ids,
        ).dependencies,
{
    let policy = left.policy;
    let roles = DependenciesView {
        instructions: seq![ids.instructions],
        settings: seq![ids.settings],
        ..DependenciesView::none()
    };
    let of_left = source_in(
        source_in(left.trace, policy, text_encoding(call.system), ids.instructions),
        policy,
        call.model_config,
        ids.settings,
    );
    let of_right = source_in(
        source_in(right.trace, policy, text_encoding(call.system), ids.instructions),
        policy,
        call.model_config,
        ids.settings,
    );
    let first = Gathering { trace: of_left, dependencies: roles };
    let second = Gathering { trace: of_right, dependencies: roles };
    lemma_schemas(first, policy, call.tools, ids.schemas);
    lemma_schemas(second, policy, call.tools, ids.schemas);
    lemma_messages(
        gather_schemas(first, policy, call.tools, ids.schemas),
        policy,
        left.requests,
        session_id,
        call.messages,
        ids.messages,
    );
    lemma_messages(
        gather_schemas(second, policy, call.tools, ids.schemas),
        policy,
        left.requests,
        session_id,
        call.messages,
        ids.messages,
    );
}

/// Whether two observers differ at most in what is to be written and whether that works.
pub open spec fn same_but_for_writing(left: ObserverView, right: ObserverView) -> bool {
    &&& same_memory(left.trace, right.trace)
    &&& left.policy == right.policy
    &&& left.sessions == right.sessions
    &&& left.session_order == right.session_order
    &&& left.requests == right.requests
    &&& left.request_order == right.request_order
    &&& left.warned == right.warned
}

proof fn lemma_same_links(
    left: ObserverView,
    right: ObserverView,
    session_id: Seq<char>,
    response: ValueView,
    content: Seq<ContentView>,
    ids: Seq<Seq<char>>,
)
    requires
        same_but_for_writing(left, right),
    ensures
        same_but_for_writing(
            left.link_all(session_id, response, content, ids),
            right.link_all(session_id, response, content, ids),
        ),
    decreases content.len(),
{
    if content.len() > 0 {
        lemma_same_links(
            left,
            right,
            session_id,
            response,
            content.drop_last(),
            ids.drop_last(),
        );
    }
}

/// Whether records can be written changes nothing else of what a message leaves behind.
pub proof fn failed_logging_changes_no_response(
    observer: ObserverView,
    session_id: Seq<char>,
    invocation: ValueView,
    message: MessageView,
    id: Seq<char>,
    ids: Seq<Seq<char>>,
)
    ensures
        ({
            let silent = ObserverView {
                trace: TraceView { logging_failed: true, ..observer.trace },
                ..observer
            };
            same_but_for_writing(
                silent.response(session_id, invocation, message, id, ids),
                observer.response(session_id, invocation, message, id, ids),
            )
        }),
{
    let silent = ObserverView {
        trace: TraceView { logging_failed: true, ..observer.trace },
        ..observer
    };
    let record = output_record(id, invocation, Operation::ModelOutput, message.encoding);
    lemma_same_links(
        ObserverView { trace: silent.trace.record(record), ..silent },
        ObserverView { trace: observer.trace.record(record), ..observer },
        session_id,
        record.value(),
        message.content,
        ids,
    );
}

/// Whether records can be written changes nothing else of what an error leaves behind.
pub proof fn failed_logging_changes_no_error(
    observer: ObserverView,
    session_id: Seq<char>,
    invocation: ValueView,
    error: Seq<char>,
    id: Seq<char>,
    exposure: Seq<char>,
)
    ensures
        ({
            let silent = ObserverView {
                trace: TraceView { logging_failed: true, ..observer.trace },
                ..observer
            };
            same_but_for_writing(
                silent.error(session_id, invocation, error, id, exposure),
                observer.error(session_id, invocation, error, id, exposure),
            )
        }),
{
}

} // verus!
