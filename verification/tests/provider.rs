use goose_ifc::provider::{Content, Message, ModelCall, ProviderObserver, SourcePolicy};
use goose_ifc::{content_digest, Domain, Label, Operation, Record};

fn shared() -> Label {
    Label::readers("fixture", &["alice", "bob"])
}

fn private() -> Label {
    Label::readers("fixture", &["alice"])
}

fn bytes(text: &str) -> Option<Vec<u8>> {
    Some(text.as_bytes().to_vec())
}

fn plain(text: &str) -> Message {
    Message {
        encoding: bytes(text),
        content: vec![Content::Other],
    }
}

fn proposing(id: &str) -> Message {
    Message {
        encoding: bytes(&format!("message with request {id}")),
        content: vec![Content::ToolRequest {
            id: id.into(),
            encoding: bytes(&format!("request {id}")),
        }],
    }
}

fn answering(id: &str) -> Message {
    Message {
        encoding: bytes(&format!("message with response {id}")),
        content: vec![Content::ToolResponse {
            id: id.into(),
            encoding: bytes(&format!("response {id}")),
        }],
    }
}

fn model_call(messages: Vec<Message>, inputs_complete: bool) -> ModelCall {
    ModelCall {
        model_config: bytes("fixture-model"),
        system: "synthetic system prompt".into(),
        messages,
        tools: vec![bytes("fixture.read")],
        inputs_complete,
    }
}

fn task() -> Vec<Message> {
    vec![plain("synthetic task")]
}

fn classify(policy: &mut SourcePolicy, text: &str, label: Label) {
    policy
        .sources
        .insert(content_digest(&bytes(text)).unwrap(), label);
}

fn policy() -> SourcePolicy {
    let mut policy = SourcePolicy::default();
    policy.domains.insert(
        "session".into(),
        Domain {
            audience: shared(),
            retained_context: shared(),
            policy_epoch: "fixture-v1".into(),
        },
    );
    for text in [
        "fixture-model",
        "\"synthetic system prompt\"",
        "synthetic task",
        "fixture.read",
    ] {
        classify(&mut policy, text, shared());
    }
    policy
}

fn of(records: &[Record], operation: Operation) -> Vec<&Record> {
    records
        .iter()
        .filter(|record| record.operation == operation)
        .collect()
}

#[test]
fn a_call_depends_on_each_of_its_inputs_once() {
    let mut observer = ProviderObserver::with_policy(policy());
    let call = observer.request("session", &model_call(task(), true));
    observer.response("session", &call, &plain("synthetic response"));
    let records = observer.take_pending();
    let calls = of(&records, Operation::ModelCall);
    assert_eq!(calls.len(), 1);
    assert_eq!(calls[0].label, shared());
    assert!(calls[0].inputs_complete);
    let dependencies = &calls[0].dependencies;
    for role in [
        &dependencies.instructions,
        &dependencies.settings,
        &dependencies.history,
        &dependencies.schemas,
    ] {
        assert_eq!(role.len(), 1);
    }
    assert!(dependencies.inputs.is_empty());
    let response = records.last().unwrap();
    assert_eq!(response.operation, Operation::ModelOutput);
    assert_eq!(response.dependencies.inputs, vec![calls[0].id.clone()]);
    assert_eq!(response.label, shared());
    let order: Vec<Operation> = records.iter().map(|record| record.operation).collect();
    assert_eq!(
        order,
        vec![
            Operation::EnterContext,
            Operation::Source,
            Operation::Source,
            Operation::Source,
            Operation::Source,
            Operation::Exposure,
            Operation::Exposure,
            Operation::Exposure,
            Operation::Exposure,
            Operation::ModelCall,
            Operation::ModelOutput,
        ]
    );
    assert_eq!(
        records[1].content_digest,
        content_digest(&serde_json::to_vec("synthetic system prompt").ok())
    );
    assert_eq!(
        records[2].content_digest,
        content_digest(&bytes("fixture-model"))
    );
    assert_eq!(
        records[3].content_digest,
        content_digest(&bytes("fixture.read"))
    );
    assert_eq!(
        records[4].content_digest,
        content_digest(&bytes("synthetic task"))
    );
    for record in &records {
        assert!(!record.to_json().text().contains("synthetic"));
    }
}

#[test]
fn private_schema_labels_every_output_including_proposed_tool_arguments() {
    let mut policy = policy();
    classify(&mut policy, "fixture.read", private());
    let mut observer = ProviderObserver::with_policy(policy);
    let call = observer.request("session", &model_call(task(), true));
    observer.response("session", &call, &plain("looks harmless"));
    observer.response("session", &call, &proposing("opaque-request"));
    let records = observer.take_pending();
    let derived: Vec<&Record> = records
        .iter()
        .filter(|record| {
            [
                Operation::ModelCall,
                Operation::ModelOutput,
                Operation::ToolRequest,
            ]
            .contains(&record.operation)
        })
        .collect();
    assert_eq!(derived.len(), 4);
    assert!(derived.iter().all(|record| record.label == private()));
}

#[test]
fn unclassified_or_stateful_inputs_remain_unknown() {
    for hidden in [false, true] {
        let policy = if hidden {
            policy()
        } else {
            SourcePolicy::default()
        };
        let mut observer = ProviderObserver::with_policy(policy);
        let call = observer.request("session", &model_call(task(), !hidden));
        observer.response("session", &call, &plain("result"));
        let records = observer.take_pending();
        let calls = of(&records, Operation::ModelCall);
        assert_eq!(calls[0].label, Label::Unknown);
        assert_eq!(calls[0].inputs_complete, !hidden);
        assert_eq!(records.last().unwrap().label, Label::Unknown);
    }
}

#[test]
fn tool_result_observation_links_the_source_and_request_without_reexecuting() {
    let mut policy = policy();
    classify(&mut policy, "message with response request", private());
    classify(&mut policy, "response request", private());
    let mut observer = ProviderObserver::with_policy(policy);
    let call = observer.request("session", &model_call(task(), true));
    observer.response("session", &call, &proposing("request"));
    let mut messages = task();
    messages.push(answering("request"));
    let later = observer.request("session", &model_call(messages, true));
    let records = observer.take_pending();
    let requests = of(&records, Operation::ToolRequest);
    let results = of(&records, Operation::ToolResult);
    assert_eq!(results[0].dependencies.control, vec![requests[0].id.clone()]);
    assert_eq!(results[0].label, private());
    assert_eq!(records.last().unwrap().label, private());
    assert_eq!(later.label(), &private());
}

#[test]
fn a_response_without_one_request_is_unknown() {
    for proposals in [0, 1, 2] {
        let mut policy = policy();
        classify(&mut policy, "message with response request", shared());
        classify(&mut policy, "response request", shared());
        let mut observer = ProviderObserver::with_policy(policy);
        let call = observer.request("session", &model_call(task(), true));
        for _ in 0..proposals {
            observer.response("session", &call, &proposing("request"));
        }
        observer.request("session", &model_call(vec![answering("request")], true));
        let records = observer.take_pending();
        let results = of(&records, Operation::ToolResult);
        let expected = if proposals == 1 {
            shared()
        } else {
            Label::Unknown
        };
        assert_eq!(results[0].label, expected);
    }
}

#[test]
fn requests_belong_to_their_session() {
    let mut policy = policy();
    classify(&mut policy, "message with response request", shared());
    classify(&mut policy, "response request", shared());
    let mut observer = ProviderObserver::with_policy(policy);
    let call = observer.request("elsewhere", &model_call(task(), true));
    observer.response("elsewhere", &call, &proposing("request"));
    observer.request("session", &model_call(vec![answering("request")], true));
    let records = observer.take_pending();
    let results = of(&records, Operation::ToolResult);
    assert_eq!(results[0].label, Label::Unknown);
    assert!(results[0].dependencies.control.is_empty());
}

#[test]
fn requests_are_limited_in_number() {
    let mut policy = policy();
    classify(&mut policy, "response 0", shared());
    classify(&mut policy, "response 1", shared());
    let mut observer = ProviderObserver::with_policy(policy);
    let call = observer.request("session", &model_call(task(), true));
    for index in 0..4097 {
        observer.response("session", &call, &proposing(&index.to_string()));
    }
    observer.take_pending();
    observer.request(
        "session",
        &model_call(vec![answering("0"), answering("1")], true),
    );
    let records = observer.take_pending();
    let results = of(&records, Operation::ToolResult);
    assert!(results[0].dependencies.control.is_empty());
    assert_eq!(results[1].dependencies.control.len(), 1);
}

#[test]
fn an_error_controlled_retry_cannot_reset_the_context() {
    let mut observer = ProviderObserver::with_policy(policy());
    let call = observer.request("session", &model_call(task(), true));
    assert_eq!(call.label(), &shared());
    observer.error("session", &call, "synthetic private error");
    let failed = observer.take_pending();
    assert_eq!(of(&failed, Operation::Error).len(), 1);
    assert_eq!(
        of(&failed, Operation::Error)[0].content_digest,
        content_digest(&serde_json::to_vec("synthetic private error").ok())
    );
    assert_eq!(failed.last().unwrap().label, Label::Unknown);
    observer.request("session", &model_call(task(), true));
    let records = observer.take_pending();
    assert_eq!(records.last().unwrap().operation, Operation::ModelCall);
    assert_eq!(records.last().unwrap().label, Label::Unknown);
}

#[test]
fn an_error_in_a_session_without_context_is_recorded_only() {
    let mut observer = ProviderObserver::with_policy(policy());
    let call = observer.request("session", &model_call(task(), true));
    observer.take_pending();
    observer.error("elsewhere", &call, "error");
    let records = observer.take_pending();
    assert_eq!(records.len(), 1);
    assert_eq!(records[0].operation, Operation::Error);
    let again = observer.request("session", &model_call(task(), true));
    assert_eq!(again.label(), &shared());
}

#[test]
fn eviction_cannot_reapply_a_clean_initial_domain() {
    let mut observer = ProviderObserver::with_policy(policy());
    observer.request("session", &model_call(task(), true));
    for index in 0..64 {
        observer.request(&format!("other-{index}"), &model_call(task(), true));
    }
    observer.request("session", &model_call(task(), true));
    assert_eq!(
        observer.take_pending().last().unwrap().label,
        Label::Unknown
    );
}

#[test]
fn sixty_four_contexts_are_remembered() {
    let mut observer = ProviderObserver::with_policy(policy());
    observer.request("session", &model_call(task(), true));
    for index in 0..63 {
        observer.request(&format!("other-{index}"), &model_call(task(), true));
    }
    let call = observer.request("session", &model_call(task(), true));
    assert_eq!(call.label(), &shared());
    let records = observer.take_pending();
    let contexts = of(&records, Operation::EnterContext);
    assert_eq!(contexts.len(), 64);
    assert_eq!(
        contexts[1].domain.as_ref().unwrap().policy_epoch,
        "unclassified-provider-v1"
    );
}

#[test]
fn a_failed_trace_is_reported_once_and_changes_no_label() {
    let mut observer = ProviderObserver::new();
    assert!(!observer.warn_if_failed());
    observer.request("session", &model_call(task(), true));
    assert!(observer.next_line().is_some());
    observer.note_written(true);
    assert!(!observer.warn_if_failed());
    assert!(observer.next_line().is_some());
    observer.note_written(false);
    assert!(observer.next_line().is_none());
    assert!(observer.warn_if_failed());
    assert!(!observer.warn_if_failed());
    let mut observer = ProviderObserver::with_policy(policy());
    observer.note_written(false);
    let call = observer.request("session", &model_call(task(), true));
    assert_eq!(call.label(), &shared());
    assert!(observer.take_pending().is_empty());
}

#[test]
fn a_call_permits_the_readers_that_all_inputs_permit() {
    let mut policy = policy();
    classify(
        &mut policy,
        "synthetic task",
        Label::readers("fixture", &["bob", "carol"]),
    );
    let mut observer = ProviderObserver::with_policy(policy);
    let call = observer.request("session", &model_call(task(), true));
    assert_eq!(call.label(), &Label::readers("fixture", &["bob"]));
}

#[test]
fn an_error_taints_every_later_call_of_its_session() {
    let mut policy = policy();
    policy.domains.insert(
        "other".into(),
        Domain {
            audience: shared(),
            retained_context: shared(),
            policy_epoch: "fixture-v1".into(),
        },
    );
    let mut observer = ProviderObserver::with_policy(policy);
    let call = observer.request("session", &model_call(task(), true));
    observer.error("session", &call, "error");
    for _ in 0..3 {
        let other = observer.request("other", &model_call(task(), true));
        assert_eq!(other.label(), &shared());
        observer.response("other", &other, &proposing("request"));
        let later = observer.request("session", &model_call(task(), true));
        assert_eq!(later.label(), &Label::Unknown);
    }
    for index in 0..64 {
        observer.request(&format!("more-{index}"), &model_call(task(), true));
    }
    let later = observer.request("session", &model_call(task(), true));
    assert_eq!(later.label(), &Label::Unknown);
}

#[test]
fn a_failed_trace_changes_no_message_and_no_error() {
    let mut silent = ProviderObserver::with_policy(policy());
    silent.note_written(false);
    let mut speaking = ProviderObserver::with_policy(policy());
    let mut labels = Vec::new();
    for observer in [&mut silent, &mut speaking] {
        let first = observer.request("session", &model_call(task(), true));
        observer.response("session", &first, &proposing("request"));
        let second = observer.request("session", &model_call(task(), true));
        observer.error("session", &second, "error");
        let third = observer.request("session", &model_call(task(), true));
        assert_eq!(first.label(), &shared());
        assert_eq!(third.label(), &Label::Unknown);
        labels.push(second.label().clone());
    }
    assert_eq!(labels[0], labels[1]);
    assert!(silent.take_pending().is_empty());
    assert!(!speaking.take_pending().is_empty());
}
