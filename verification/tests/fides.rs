use goose_ifc::fides::{
    quarantine_request, quarantine_result, security_tools, CallToolRequestParams, CallToolResult,
    Confidentiality, ContentItem, ContentLabel, Integrity, LabelTracker, Reply, ReplyContent,
    SecureAgentConfig, SecurityError, Tool, ToolAnnotations, ToolPolicy, INSPECT_VARIABLE,
    QUARANTINED_LLM,
};
use goose_ifc::json::{lookup_entry, Entries, Json};

/// A JSON value of the library, from JSON text.
fn json(text: &str) -> Json {
    convert(&serde_json::from_str(text).unwrap())
}

fn convert(value: &serde_json::Value) -> Json {
    match value {
        serde_json::Value::Null => Json::Null,
        serde_json::Value::Bool(flag) => Json::Bool(*flag),
        serde_json::Value::Number(number) => Json::Number(number.to_string()),
        serde_json::Value::String(text) => Json::Text(text.clone()),
        serde_json::Value::Array(items) => Json::Array(items.iter().map(convert).collect()),
        serde_json::Value::Object(entries) => Json::Object(
            entries
                .iter()
                .map(|(key, value)| (key.clone(), convert(value)))
                .collect(),
        ),
    }
}

fn parsed(value: &Json) -> serde_json::Value {
    serde_json::from_str(&value.text()).unwrap()
}

fn entries(text: &str) -> Entries {
    match json(text) {
        Json::Object(entries) => entries,
        _ => panic!("not an object"),
    }
}

/// A result, from its JSON text.
fn result(text: &str) -> CallToolResult {
    let value: serde_json::Value = serde_json::from_str(text).unwrap();
    let object = |value: &serde_json::Value| match convert(value) {
        Json::Object(entries) => entries,
        _ => panic!("not an object"),
    };
    CallToolResult {
        result_type: None,
        content: value["content"]
            .as_array()
            .unwrap()
            .iter()
            .map(|item| ContentItem { fields: object(item) })
            .collect(),
        structured_content: value.get("structuredContent").map(convert),
        is_error: value.get("isError").and_then(|flag| flag.as_bool()),
        meta: value.get("_meta").map(object),
    }
}

/// The JSON of a result.
fn encoded(result: &CallToolResult) -> serde_json::Value {
    let mut value = serde_json::Map::new();
    value.insert(
        "content".into(),
        result
            .content
            .iter()
            .map(|item| {
                let fields: serde_json::Map<String, serde_json::Value> = item
                    .fields
                    .iter()
                    .map(|(key, value)| (key.clone(), parsed(value)))
                    .collect();
                serde_json::Value::Object(fields)
            })
            .collect(),
    );
    if let Some(structured) = &result.structured_content {
        value.insert("structuredContent".into(), parsed(structured));
    }
    if let Some(flag) = result.is_error {
        value.insert("isError".into(), flag.into());
    }
    if let Some(meta) = &result.meta {
        let meta: serde_json::Map<String, serde_json::Value> = meta
            .iter()
            .map(|(key, value)| (key.clone(), parsed(value)))
            .collect();
        value.insert("_meta".into(), meta.into());
    }
    serde_json::Value::Object(value)
}

fn label_json(label: &ContentLabel) -> serde_json::Value {
    parsed(&label.to_json())
}

fn tool(name: &str) -> Tool {
    Tool::new(name, "Fixture tool", entries("{\"type\":\"object\"}"))
}

fn call(name: &str, arguments: &str) -> CallToolRequestParams {
    CallToolRequestParams::new(name).with_arguments(entries(arguments))
}

fn private() -> ContentLabel {
    ContentLabel::untrusted(Confidentiality::Private)
}

fn text(content: &str) -> CallToolResult {
    CallToolResult::success(vec![ContentItem::text(content.to_owned())])
}

fn reading(trust_result_labels: bool) -> SecureAgentConfig {
    let mut config = SecureAgentConfig::default();
    config.tools.insert(
        "fixture.read".into(),
        ToolPolicy {
            source_label: private(),
            accepts_untrusted: true,
            max_allowed_confidentiality: None,
            trust_result_labels,
        },
    );
    config
}

fn config() -> SecureAgentConfig {
    reading(false)
}

fn hidden_value(tracker: &mut LabelTracker, session: &str) -> String {
    let invocation = tracker
        .begin(session, &tool("fixture.read"), &call("fixture.read", "{}"))
        .unwrap();
    let result = tracker
        .finish(invocation, Ok(text("synthetic private investigation")))
        .unwrap();
    variable_reference(&result.content[0])
}

fn variable_reference(content: &ContentItem) -> String {
    let value: serde_json::Value = serde_json::from_str(content.as_text().unwrap()).unwrap();
    value["variable_id"].as_str().unwrap().to_owned()
}

fn last_event(tracker: &mut LabelTracker) -> serde_json::Value {
    parsed(tracker.take_pending().last().unwrap())
}

#[test]
fn microsoft_label_lattice_uses_two_independent_axes() {
    let labels = [Integrity::Trusted, Integrity::Untrusted]
        .into_iter()
        .flat_map(|integrity| {
            [
                Confidentiality::Public,
                Confidentiality::Private,
                Confidentiality::UserIdentity,
            ]
            .into_iter()
            .map(move |confidentiality| ContentLabel {
                integrity,
                confidentiality,
                ..Default::default()
            })
        })
        .collect::<Vec<_>>();
    for left in &labels {
        assert_eq!(left.join(left), *left);
        for right in &labels {
            assert_eq!(left.join(right), right.join(left));
            assert!(left.join(right).integrity >= left.integrity);
            assert!(left.join(right).confidentiality >= left.confidentiality);
            for third in &labels {
                assert_eq!(left.join(right).join(third), left.join(&right.join(third)));
            }
        }
    }
}

#[test]
fn hidden_private_result_preserves_integrity_but_taints_confidentiality() {
    let mut tracker = LabelTracker::new(config());
    hidden_value(&mut tracker, "alice");
    assert_eq!(
        tracker.context_label("alice"),
        ContentLabel {
            integrity: Integrity::Trusted,
            confidentiality: Confidentiality::Private,
            ..Default::default()
        }
    );
    let invocation = tracker
        .begin(
            "alice",
            &tool("fixture.publish"),
            &call("fixture.publish", "{\"text\":\"independent work\"}"),
        )
        .unwrap();
    assert!(!invocation.blocked());
    let events = tracker.take_pending();
    let record = parsed(events.last().unwrap());
    assert_eq!(record["would_allow"], false);
    assert_eq!(record["confidentiality_violation"], true);
    assert_eq!(record["integrity_violation"], false);
    for event in &events {
        assert!(!event.text().contains("synthetic private investigation"));
    }
}

#[test]
fn inspect_exposes_content_and_permanently_taints_integrity() {
    let mut tracker = LabelTracker::new(config());
    let reference = hidden_value(&mut tracker, "alice");
    let invocation = tracker
        .begin(
            "alice",
            &tool(INSPECT_VARIABLE),
            &call(
                INSPECT_VARIABLE,
                &format!("{{\"variable_id\":\"{reference}\"}}"),
            ),
        )
        .unwrap();
    let result = tracker.inspect(invocation).unwrap();
    assert_eq!(
        result.content[0].as_text().unwrap(),
        "synthetic private investigation"
    );
    assert_eq!(tracker.context_label("alice"), private());
    let invocation = tracker
        .begin("alice", &tool("fixture.read"), &call("fixture.read", "{}"))
        .unwrap();
    let result = tracker
        .finish(invocation, Ok(text("later content")))
        .unwrap();
    assert_eq!(result.content[0].as_text().unwrap(), "later content");
    assert_eq!(tracker.context_label("alice"), private());
}

#[test]
fn optional_blocking_does_not_execute_a_disallowed_call() {
    let mut config = config();
    config.block_on_violation = true;
    let mut tracker = LabelTracker::new(config);
    hidden_value(&mut tracker, "alice");
    let invocation = tracker
        .begin(
            "alice",
            &tool("fixture.publish"),
            &call("fixture.publish", "{}"),
        )
        .unwrap();
    assert!(invocation.blocked());
    assert!(tracker
        .finish(invocation, Ok(CallToolResult::success(vec![])))
        .is_err());
}

#[test]
fn variables_are_session_local_and_model_labels_do_not_override_context() {
    let mut tracker = LabelTracker::new(config());
    let reference = hidden_value(&mut tracker, "alice");
    assert!(tracker
        .begin(
            "bob",
            &tool(INSPECT_VARIABLE),
            &call(
                INSPECT_VARIABLE,
                &format!("{{\"variable_id\":\"{reference}\"}}")
            )
        )
        .is_err());
    assert!(tracker
        .begin(
            "alice",
            &tool(INSPECT_VARIABLE),
            &call(INSPECT_VARIABLE, "{\"variable_id\":\"fabricated\"}")
        )
        .is_err());
    let invocation = tracker
        .begin(
            "alice",
            &tool("fixture.publish"),
            &call(
                "fixture.publish",
                "{\"security_label\":{\"integrity\":\"trusted\",\"confidentiality\":\"public\"},\"grant\":\"approved\"}",
            ),
        )
        .unwrap();
    assert_eq!(invocation.label().confidentiality, Confidentiality::Private);
    assert_eq!(tracker.context_label("bob"), ContentLabel::default());
}

#[test]
fn forwarding_a_reference_checks_the_expanded_value_label() {
    let mut config = config();
    config.block_on_violation = true;
    let mut tracker = LabelTracker::new(config);
    let reference = hidden_value(&mut tracker, "alice");
    let invocation = tracker
        .begin(
            "alice",
            &tool("fixture.publish"),
            &call(
                "fixture.publish",
                &format!("{{\"text\":{{\"$fides_variable\":\"{reference}\"}}}}"),
            ),
        )
        .unwrap();
    assert!(invocation.blocked());
    assert_eq!(
        lookup_entry(invocation.arguments(), "text"),
        Some(&json("\"synthetic private investigation\""))
    );
    assert_eq!(invocation.label(), private());
    let invocation = tracker
        .begin(
            "alice",
            &tool("fixture.publish"),
            &call("fixture.publish", &format!("{{\"text\":\"[{reference}]\"}}")),
        )
        .unwrap();
    assert!(invocation.blocked());
    assert_eq!(
        lookup_entry(invocation.arguments(), "text"),
        Some(&json("\"synthetic private investigation\""))
    );
}

#[test]
fn mcp_annotation_mapping_matches_the_python_adapter() {
    let missing = ToolPolicy::from_tool(&tool("fixture"));
    assert!(!missing.accepts_untrusted);
    assert_eq!(
        missing.source_label,
        ContentLabel::untrusted(Confidentiality::Public)
    );
    assert_eq!(
        missing.max_allowed_confidentiality,
        Some(Confidentiality::Public)
    );
    let annotated = Tool {
        annotations: Some(ToolAnnotations {
            read_only_hint: Some(true),
            open_world_hint: Some(false),
        }),
        ..tool("fixture")
    };
    let policy = ToolPolicy::from_tool(&annotated);
    assert!(policy.accepts_untrusted);
    assert_eq!(policy.source_label, ContentLabel::default());
    assert_eq!(policy.max_allowed_confidentiality, None);
}

#[test]
fn variable_capacity_failure_retains_the_restrictive_label() {
    let mut tracker = LabelTracker::new(config());
    for _ in 0..1024 {
        hidden_value(&mut tracker, "alice");
    }
    let invocation = tracker
        .begin("alice", &tool("fixture.read"), &call("fixture.read", "{}"))
        .unwrap();
    assert!(tracker.finish(invocation, Ok(text("overflow"))).is_err());
    assert_eq!(tracker.context_label("alice"), private());
}

#[test]
fn trace_failure_does_not_disable_label_tracking_or_blocking() {
    struct FailedWriter;
    impl std::io::Write for FailedWriter {
        fn write(&mut self, _: &[u8]) -> std::io::Result<usize> {
            Err(std::io::Error::other("fixture failure"))
        }
        fn flush(&mut self) -> std::io::Result<()> {
            Ok(())
        }
    }
    fn drain(tracker: &mut LabelTracker) {
        while let Some(line) = tracker.next_line() {
            let written = std::io::Write::write_all(&mut FailedWriter, &line).is_ok();
            tracker.note_written(written);
        }
    }
    let mut config = config();
    config.block_on_violation = true;
    let mut tracker = LabelTracker::new(config);
    hidden_value(&mut tracker, "alice");
    drain(&mut tracker);
    assert!(tracker.log_failed());
    assert_eq!(
        tracker.context_label("alice").confidentiality,
        Confidentiality::Private
    );
    let invocation = tracker
        .begin(
            "alice",
            &tool("fixture.publish"),
            &call("fixture.publish", "{}"),
        )
        .unwrap();
    assert!(invocation.blocked());
    assert!(tracker.take_pending().is_empty());
}

#[test]
fn events_are_written_as_lines_up_to_the_first_that_fails() {
    let mut tracker = LabelTracker::new(config());
    let mut same = LabelTracker::new(config());
    hidden_value(&mut tracker, "alice");
    hidden_value(&mut same, "alice");
    let expected: Vec<serde_json::Value> = same.take_pending().iter().map(parsed).collect();
    assert!(expected.len() > 1);
    let first = tracker.next_line().unwrap();
    tracker.note_written(true);
    assert!(!tracker.log_failed());
    assert_eq!(first.iter().filter(|byte| **byte == b'\n').count(), 1);
    assert_eq!(first.last(), Some(&b'\n'));
    let event: serde_json::Value = serde_json::from_slice(&first).unwrap();
    assert_eq!(event["event"], "tool_call");
    assert_eq!(event["tool_digest"], expected[0]["tool_digest"]);
    assert!(event["tool_digest"].is_string());
    assert!(tracker.next_line().is_some());
    tracker.note_written(false);
    assert!(tracker.log_failed());
    assert!(tracker.next_line().is_none());
    assert_eq!(tracker.context_label("alice"), same.context_label("alice"));
    hidden_value(&mut tracker, "alice");
    assert!(tracker.next_line().is_none());
}

#[test]
fn a_failed_log_is_reported_once() {
    let mut tracker = LabelTracker::new(config());
    assert!(!tracker.warn_if_failed());
    hidden_value(&mut tracker, "alice");
    assert!(!tracker.warn_if_failed());
    tracker.next_line();
    tracker.note_written(false);
    assert!(tracker.warn_if_failed());
    assert!(!tracker.warn_if_failed());
    hidden_value(&mut tracker, "alice");
    tracker.note_written(false);
    assert!(!tracker.warn_if_failed());
}

#[test]
fn an_unknown_reference_is_refused_at_any_depth() {
    let mut tracker = LabelTracker::new(config());
    let known = hidden_value(&mut tracker, "alice");
    for (reference, accepted) in [(known.as_str(), true), ("var_0", false)] {
        for arguments in [
            format!(r#"{{"a":{{"$fides_variable":"{reference}"}}}}"#),
            format!(r#"{{"a":[1,{{"b":[{{"$fides_variable":"{reference}"}}]}}]}}"#),
            format!(r#"{{"a":{{"b":1,"c":["[{reference}]"]}}}}"#),
        ] {
            let begun = tracker.begin(
                "alice",
                &tool("fixture.read"),
                &call("fixture.read", &arguments),
            );
            assert_eq!(begun.is_ok(), accepted);
        }
    }
}

#[test]
fn mixed_items_hide_individually_and_structured_duplicates_do_not_escape() {
    let mut tracker = LabelTracker::new(reading(true));
    let invocation = tracker
        .begin("alice", &tool("fixture.read"), &call("fixture.read", "{}"))
        .unwrap();
    let raw = result(
        "{\"content\":[{\"type\":\"text\",\"text\":\"public item\",\"_meta\":{\"security_label\":{\"integrity\":\"trusted\",\"confidentiality\":\"public\"}}},{\"type\":\"text\",\"text\":\"private item\",\"_meta\":{\"security_label\":{\"integrity\":\"untrusted\",\"confidentiality\":\"private\"}}}],\"structuredContent\":{\"duplicate\":\"private item\"},\"_meta\":{\"ifc\":{\"integrity\":\"untrusted\",\"confidentiality\":\"private\"},\"title\":\"private metadata\"}}",
    );
    let result = tracker.finish(invocation, Ok(raw)).unwrap();
    assert_eq!(result.content[0].as_text().unwrap(), "public item");
    assert!(variable_reference(&result.content[1]).starts_with("var_"));
    assert_eq!(
        parsed(result.structured_content.as_ref().unwrap())["type"],
        "variable_reference"
    );
    let serialized = encoded(&result).to_string();
    assert!(!serialized.contains("private item"));
    assert!(!serialized.contains("private metadata"));
    assert_eq!(tracker.context_label("alice").integrity, Integrity::Trusted);
    assert_eq!(
        tracker.context_label("alice").confidentiality,
        Confidentiality::Private
    );
}

#[test]
fn metadata_labels_require_host_opt_in_and_invalid_labels_are_restrictive() {
    for trust_result_labels in [false, true] {
        let mut tracker = LabelTracker::new(reading(trust_result_labels));
        let invocation = tracker
            .begin("alice", &tool("fixture.read"), &call("fixture.read", "{}"))
            .unwrap();
        let raw = result(
            "{\"content\":[{\"type\":\"text\",\"text\":\"fixture\"}],\"_meta\":{\"ifc\":{\"integrity\":\"invalid\",\"confidentiality\":\"public\"}}}",
        );
        tracker.finish(invocation, Ok(raw)).unwrap();
        assert_eq!(
            tracker.context_label("alice").confidentiality,
            if trust_result_labels {
                Confidentiality::UserIdentity
            } else {
                Confidentiality::Private
            }
        );
    }
}

#[test]
fn log_only_with_hiding_disabled_tracks_actual_delivery() {
    let mut config = config();
    config.auto_hide_untrusted = false;
    let mut tracker = LabelTracker::new(config);
    let invocation = tracker
        .begin("alice", &tool("fixture.read"), &call("fixture.read", "{}"))
        .unwrap();
    let result = tracker.finish(invocation, Ok(text("fixture"))).unwrap();
    assert_eq!(result.content[0].as_text().unwrap(), "fixture");
    assert_eq!(tracker.context_label("alice"), private());
}

#[test]
fn transport_errors_do_not_disclose_provider_details_or_reset_labels() {
    let mut tracker = LabelTracker::new(config());
    let invocation = tracker
        .begin("alice", &tool("fixture.read"), &call("fixture.read", "{}"))
        .unwrap();
    let result = tracker
        .finish(
            invocation,
            Err(SecurityError {
                code: -32603,
                message: "private transport details".into(),
            }),
        )
        .unwrap();
    assert_eq!(result.is_error, Some(true));
    assert!(!encoded(&result)
        .to_string()
        .contains("private transport details"));
    assert_eq!(tracker.context_label("alice"), private());
}

#[test]
fn quarantine_receives_only_explicit_inputs_has_no_tools_and_stays_private() {
    let mut tracker = LabelTracker::new(config());
    let reference = hidden_value(&mut tracker, "alice");
    let invocation = tracker
        .begin(
            "alice",
            &tool(QUARANTINED_LLM),
            &call(
                QUARANTINED_LLM,
                &format!("{{\"prompt\":\"Analyze fixture\",\"variable_ids\":[\"{reference}\"]}}"),
            ),
        )
        .unwrap();
    let request = quarantine_request(&invocation, false).unwrap();
    assert_eq!(
        request.prompt,
        "{\"data\":[\"synthetic private investigation\"],\"request\":\"Analyze fixture\"}"
    );
    assert_eq!(
        request.system,
        "Analyze the supplied data according to the request. You have no tools. Your response retains the inputs' security label."
    );
    let reply = quarantine_result(Some(Reply {
        content: vec![ReplyContent::Other],
        text: "synthetic analysis".into(),
    }));
    let result = tracker.finish_quarantine(invocation, reply).unwrap();
    assert!(variable_reference(&result.content[0]).starts_with("var_"));
    assert_eq!(
        tracker.context_label("alice").confidentiality,
        Confidentiality::Private
    );
}

#[test]
fn quarantine_rejects_context_managing_providers_and_never_dispatches_generated_tools() {
    for manages_context in [false, true] {
        let mut tracker = LabelTracker::new(config());
        let reference = hidden_value(&mut tracker, "alice");
        let invocation = tracker
            .begin(
                "alice",
                &tool(QUARANTINED_LLM),
                &call(
                    QUARANTINED_LLM,
                    &format!("{{\"prompt\":\"Analyze\",\"variable_ids\":[\"{reference}\"]}}"),
                ),
            )
            .unwrap();
        assert_eq!(
            quarantine_request(&invocation, manages_context).is_err(),
            manages_context
        );
        assert!(quarantine_result(Some(Reply {
            content: vec![ReplyContent::ToolRequest],
            text: String::new(),
        }))
        .is_err());
    }
}

#[test]
fn internal_tool_schemas_are_bounded() {
    let tools = security_tools();
    assert_eq!(tools.len(), 2);
    assert_eq!(tools[0].name, "fides__inspect_variable");
    assert_eq!(tools[1].name, "fides__quarantined_llm");
    assert_eq!(
        parsed(lookup_entry(&tools[1].input_schema, "additionalProperties").unwrap()),
        false
    );
    assert_eq!(
        Json::Object(entries(
            "{\"type\":\"object\",\"properties\":{\"variable_id\":{\"type\":\"string\"},\"reason\":{\"type\":\"string\"}},\"required\":[\"variable_id\"],\"additionalProperties\":false}"
        )),
        Json::Object(security_tools().remove(0).input_schema)
    );
    assert_eq!(
        Json::Object(entries(
            "{\"type\":\"object\",\"properties\":{\"prompt\":{\"type\":\"string\"},\"variable_ids\":{\"type\":\"array\",\"items\":{\"type\":\"string\"},\"minItems\":1,\"maxItems\":32}},\"required\":[\"prompt\",\"variable_ids\"],\"additionalProperties\":false}"
        )),
        Json::Object(security_tools().remove(1).input_schema)
    );
    assert!(tools[1].annotations.is_none());
}

#[test]
fn every_refusal_is_the_same_error() {
    let mut tracker = LabelTracker::new(config());
    let expected = goose_ifc::fides::security_error();
    assert_eq!(expected.code, -32602);
    assert_eq!(expected.message, "FIDES operation unavailable or invalid");
    let refused = [
        (tool("other"), call("fixture.read", "{}")),
        (tool(INSPECT_VARIABLE), call(INSPECT_VARIABLE, "{}")),
        (
            tool(INSPECT_VARIABLE),
            call(INSPECT_VARIABLE, "{\"variable_id\":1}"),
        ),
        (
            tool(INSPECT_VARIABLE),
            call(INSPECT_VARIABLE, "{\"variable_id\":\"x\",\"grant\":true}"),
        ),
        (
            tool(QUARANTINED_LLM),
            call(QUARANTINED_LLM, "{\"prompt\":\"p\",\"variable_ids\":[]}"),
        ),
        (
            tool(QUARANTINED_LLM),
            call(QUARANTINED_LLM, "{\"prompt\":\"p\",\"variable_ids\":[1]}"),
        ),
        (
            tool(QUARANTINED_LLM),
            call(QUARANTINED_LLM, "{\"variable_ids\":[\"x\"]}"),
        ),
        (
            tool("fixture.read"),
            call("fixture.read", "{\"text\":\"[var_unknown]\"}"),
        ),
        (
            tool("fixture.read"),
            call("fixture.read", "{\"text\":{\"$fides_variable\":\"unknown\"}}"),
        ),
    ];
    for (tool, call) in &refused {
        assert_eq!(
            tracker.begin("alice", tool, call).unwrap_err(),
            goose_ifc::fides::security_error()
        );
    }
    assert!(tracker.take_pending().is_empty());
}

#[test]
fn a_call_names_at_most_thirty_two_variables() {
    let mut tracker = LabelTracker::new(config());
    let reference = hidden_value(&mut tracker, "alice");
    for (count, admitted) in [(1, true), (32, true), (33, false)] {
        let ids = vec![format!("\"{reference}\""); count].join(",");
        let begun = tracker.begin(
            "alice",
            &tool(QUARANTINED_LLM),
            &call(
                QUARANTINED_LLM,
                &format!("{{\"prompt\":\"p\",\"variable_ids\":[{ids}]}}"),
            ),
        );
        assert_eq!(begun.is_ok(), admitted);
    }
}

#[test]
fn arguments_nest_at_most_thirty_two_levels_deep() {
    let mut tracker = LabelTracker::new(config());
    for (depth, admitted) in [(32, true), (33, false)] {
        let nested = format!("{}0{}", "[".repeat(depth), "]".repeat(depth));
        let begun = tracker.begin(
            "alice",
            &tool("fixture.read"),
            &call("fixture.read", &format!("{{\"value\":{nested}}}")),
        );
        assert_eq!(begun.is_ok(), admitted);
    }
}

#[test]
fn references_inside_larger_texts_and_objects_are_left_alone() {
    let mut tracker = LabelTracker::new(config());
    let reference = hidden_value(&mut tracker, "alice");
    let arguments = format!(
        "{{\"a\":\"see [{reference}]\",\"b\":\"{reference}\",\"c\":[{{\"$fides_variable\":\"{reference}\",\"more\":1}}],\"d\":\"[other]\",\"e\":\"[\"}}"
    );
    let invocation = tracker
        .begin(
            "alice",
            &tool("fixture.read"),
            &call("fixture.read", &arguments),
        )
        .unwrap();
    assert_eq!(invocation.arguments(), &entries(&arguments));
    let arguments = format!("{{\"a\":[1,[{{\"b\":\"[{reference}]\"}}]]}}");
    let invocation = tracker
        .begin(
            "alice",
            &tool("fixture.read"),
            &call("fixture.read", &arguments),
        )
        .unwrap();
    assert_eq!(
        invocation.arguments(),
        &entries("{\"a\":[1,[{\"b\":\"synthetic private investigation\"}]]}")
    );
    let event = last_event(&mut tracker);
    assert_eq!(event["input_refs"][0], reference.as_str());
    assert_eq!(event["input_refs"].as_array().unwrap().len(), 1);
}

#[test]
fn sessions_are_limited_in_number() {
    let mut tracker = LabelTracker::new(config());
    for index in 0..1024 {
        let session = format!("session-{index}");
        assert!(tracker
            .begin(&session, &tool("fixture.read"), &call("fixture.read", "{}"))
            .is_ok());
    }
    assert!(tracker
        .begin("another", &tool("fixture.read"), &call("fixture.read", "{}"))
        .is_err());
    assert!(tracker
        .begin("session-7", &tool("fixture.read"), &call("fixture.read", "{}"))
        .is_ok());
}

#[test]
fn stored_bytes_are_limited_and_count_label_metadata() {
    let mut tracker = LabelTracker::new(config());
    let hide = |tracker: &mut LabelTracker, size: usize| {
        let invocation = tracker
            .begin("alice", &tool("fixture.read"), &call("fixture.read", "{}"))
            .unwrap();
        tracker.finish(invocation, Ok(text(&"x".repeat(size)))).is_ok()
    };
    let half = 8 * 1024 * 1024;
    assert!(hide(&mut tracker, half - 2));
    assert!(hide(&mut tracker, half - 2));
    assert_eq!(tracker.context_label("alice").integrity, Integrity::Trusted);
    assert!(!hide(&mut tracker, 0));
    assert_eq!(tracker.context_label("alice"), private());

    let mut tracker = LabelTracker::new(reading(true));
    let invocation = tracker
        .begin("alice", &tool("fixture.read"), &call("fixture.read", "{}"))
        .unwrap();
    let metadata = "m".repeat(16 * 1024 * 1024);
    let raw = result(&format!(
        "{{\"content\":[{{\"type\":\"text\",\"text\":\"small\",\"_meta\":{{\"security_label\":{{\"integrity\":\"untrusted\",\"confidentiality\":\"private\",\"metadata\":{{\"note\":\"{metadata}\"}}}}}}}}]}}"
    ));
    assert!(tracker.finish(invocation, Ok(raw)).is_err());
    assert_eq!(
        tracker.context_label("alice").confidentiality,
        Confidentiality::Private
    );
}

#[test]
fn given_names_appear_in_events_and_placeholders() {
    let mut tracker = LabelTracker::new(config());
    let invocation = tracker
        .begin_as(
            "alice",
            &tool("fixture.read"),
            &call("fixture.read", "{\"q\":1}"),
            "trace-1".into(),
            "call-1".into(),
        )
        .unwrap();
    let tool_digest = goose_ifc::content_digest(&Some(b"\"fixture.read\"".to_vec())).unwrap();
    let arguments_digest = goose_ifc::content_digest(&Some(b"{\"q\":1}".to_vec())).unwrap();
    assert_eq!(
        tracker.take_pending()[0].text(),
        format!("{{\"arguments_digest\":\"{arguments_digest}\",\"blocked\":false,\"confidentiality_violation\":false,\"event\":\"tool_call\",\"input_refs\":[],\"integrity_violation\":false,\"invocation\":\"call-1\",\"label\":{{\"confidentiality\":\"public\",\"integrity\":\"trusted\"}},\"session\":\"trace-1\",\"tool_digest\":\"{tool_digest}\",\"version\":1,\"would_allow\":true}}")
    );
    let output = tracker
        .finish_labeled(
            invocation,
            Ok(text("synthetic")),
            None,
            vec!["var_1".into()],
        )
        .unwrap();
    assert_eq!(
        output.content[0].as_text().unwrap(),
        "{\"security_label\":{\"confidentiality\":\"private\",\"integrity\":\"untrusted\"},\"type\":\"variable_reference\",\"variable_id\":\"var_1\"}"
    );
    assert_eq!(output.is_error, Some(false));
    assert_eq!(output.result_type.as_deref(), Some("complete"));
    assert_eq!(
        output.meta,
        Some(entries(
            "{\"goose.fides.context\":{\"confidentiality\":\"private\",\"integrity\":\"trusted\"}}"
        ))
    );
    let digest = goose_ifc::content_digest(&Some(b"\"synthetic\"".to_vec())).unwrap();
    let events = tracker.take_pending();
    assert_eq!(events.len(), 2);
    assert_eq!(
        events[0].text(),
        format!("{{\"content_digest\":\"{digest}\",\"event\":\"value\",\"hidden\":true,\"invocation\":\"call-1\",\"label\":{{\"confidentiality\":\"private\",\"integrity\":\"untrusted\"}},\"session\":\"trace-1\",\"value_ref\":\"var_1\",\"version\":1}}")
    );
    assert_eq!(
        events[1].text(),
        "{\"context_after\":{\"confidentiality\":\"private\",\"integrity\":\"trusted\"},\"context_before\":{\"confidentiality\":\"public\",\"integrity\":\"trusted\"},\"error\":false,\"event\":\"tool_result\",\"invocation\":\"call-1\",\"session\":\"trace-1\",\"version\":1}"
    );
}

#[test]
fn an_empty_result_keeps_the_confidentiality_of_its_source() {
    let mut tracker = LabelTracker::new(config());
    let invocation = tracker
        .begin("alice", &tool("fixture.read"), &call("fixture.read", "{}"))
        .unwrap();
    let output = tracker
        .finish(invocation, Ok(CallToolResult::success(vec![])))
        .unwrap();
    assert!(output.content.is_empty());
    assert_eq!(
        tracker.context_label("alice"),
        ContentLabel {
            integrity: Integrity::Trusted,
            confidentiality: Confidentiality::Private,
            ..Default::default()
        }
    );
}

#[test]
fn items_that_are_no_text_are_hidden_and_shown_whole() {
    let image = "{\"type\":\"image\",\"data\":\"QUJD\",\"mimeType\":\"image/png\"}";
    let mut tracker = LabelTracker::new(config());
    let invocation = tracker
        .begin("alice", &tool("fixture.read"), &call("fixture.read", "{}"))
        .unwrap();
    let output = tracker
        .finish(
            invocation,
            Ok(result(&format!("{{\"content\":[{image}]}}"))),
        )
        .unwrap();
    let reference = variable_reference(&output.content[0]);
    let invocation = tracker
        .begin(
            "alice",
            &tool(INSPECT_VARIABLE),
            &call(
                INSPECT_VARIABLE,
                &format!("{{\"variable_id\":\"{reference}\",\"reason\":\"look\"}}"),
            ),
        )
        .unwrap();
    let shown = tracker.inspect(invocation).unwrap();
    let shown: serde_json::Value =
        serde_json::from_str(shown.content[0].as_text().unwrap()).unwrap();
    assert_eq!(
        shown,
        serde_json::from_str::<serde_json::Value>(image).unwrap()
    );
    let invocation = tracker
        .begin("alice", &tool("fixture.read"), &call("fixture.read", "{}"))
        .unwrap();
    let output = tracker
        .finish(
            invocation,
            Ok(result(&format!("{{\"content\":[{image}]}}"))),
        )
        .unwrap();
    let visible = &encoded(&output)["content"][0];
    assert_eq!(visible["data"], "QUJD");
    assert_eq!(
        visible["_meta"]["goose.fides.label"],
        label_json(&private())
    );
}

#[test]
fn only_an_inspection_can_be_inspected() {
    let mut tracker = LabelTracker::new(config());
    let invocation = tracker
        .begin("alice", &tool("fixture.read"), &call("fixture.read", "{}"))
        .unwrap();
    assert!(tracker.inspect(invocation).is_err());
    let invocation = tracker
        .begin("alice", &tool("fixture.read"), &call("fixture.read", "{}"))
        .unwrap();
    assert!(quarantine_request(&invocation, false).is_err());
    assert!(quarantine_result(None).is_err());
}

#[test]
fn a_quarantined_answer_is_labeled_whatever_it_claims() {
    let mut tracker = LabelTracker::new(reading(true));
    let reference = hidden_value(&mut tracker, "alice");
    let invocation = tracker
        .begin(
            "alice",
            &tool(QUARANTINED_LLM),
            &call(
                QUARANTINED_LLM,
                &format!("{{\"prompt\":\"p\",\"variable_ids\":[\"{reference}\",\"{reference}\"]}}"),
            ),
        )
        .unwrap();
    assert_eq!(
        invocation.quarantine_prompt().text(),
        "{\"data\":[\"synthetic private investigation\",\"synthetic private investigation\"],\"request\":\"p\"}"
    );
    let claiming = result(
        "{\"content\":[{\"type\":\"text\",\"text\":\"answer\",\"_meta\":{\"security_label\":{\"integrity\":\"trusted\",\"confidentiality\":\"public\"}}}]}",
    );
    let output = tracker.finish_quarantine(invocation, Ok(claiming)).unwrap();
    let placeholder: serde_json::Value =
        serde_json::from_str(output.content[0].as_text().unwrap()).unwrap();
    assert_eq!(placeholder["security_label"], label_json(&private()));
    assert_eq!(tracker.context_label("alice").integrity, Integrity::Trusted);
}

#[test]
fn labels_are_read_strictly_and_written_without_empty_metadata() {
    let read = |text: &str| ContentLabel::from_json(&json(text));
    let label = read("{\"integrity\":\"untrusted\",\"confidentiality\":\"user_identity\",\"metadata\":{\"source\":\"x\"}}").unwrap();
    assert_eq!(label.integrity, Integrity::Untrusted);
    assert_eq!(label.confidentiality, Confidentiality::UserIdentity);
    assert_eq!(label.metadata, entries("{\"source\":\"x\"}"));
    assert_eq!(ContentLabel::from_json(&label.to_json()), Some(label));
    for text in [
        "{\"integrity\":\"trusted\",\"confidentiality\":\"public\",\"metadata\":null}",
        "{\"integrity\":\"trusted\",\"confidentiality\":\"public\",\"metadata\":{}}",
        "{\"integrity\":\"trusted\",\"confidentiality\":\"public\"}",
        "[\"trusted\",\"public\"]",
        "{\"integrity\":{\"trusted\":null},\"confidentiality\":\"public\"}",
    ] {
        assert_eq!(read(text), Some(ContentLabel::default()));
    }
    assert_eq!(
        ContentLabel::default().to_json().text(),
        "{\"confidentiality\":\"public\",\"integrity\":\"trusted\"}"
    );
    for text in [
        "{\"integrity\":\"trusted\"}",
        "{\"confidentiality\":\"public\"}",
        "{\"integrity\":\"trusted\",\"confidentiality\":\"public\",\"grant\":1}",
        "{\"integrity\":\"Trusted\",\"confidentiality\":\"public\"}",
        "{\"integrity\":\"trusted\",\"confidentiality\":\"secret\"}",
        "{\"integrity\":\"trusted\",\"confidentiality\":\"public\",\"metadata\":[]}",
        "\"trusted\"",
        "null",
        "[\"trusted\"]",
    ] {
        assert_eq!(read(text), None);
    }
}

#[test]
fn joined_metadata_keeps_the_later_value() {
    let label = |metadata: &str| ContentLabel {
        metadata: entries(metadata),
        ..Default::default()
    };
    let joined = label("{\"a\":1,\"b\":2}").join(&label("{\"b\":3,\"c\":4}"));
    assert_eq!(joined.metadata, entries("{\"a\":1,\"b\":3,\"c\":4}"));
}

#[test]
fn json_text_is_that_of_serde_json() {
    for text in [
        "null",
        "[true,false,null,12,-3.5,1e100]",
        "{\"a\":{\"b\":[{},[],\"\"]},\"z\":\"plain\"}",
        "\"quote \\\" backslash \\\\ slash / newline \\n tab \\t bell \\u0007 umlaut \u{fc} snow \u{2603} clef \u{1d11e}\"",
    ] {
        let value: serde_json::Value = serde_json::from_str(text).unwrap();
        assert_eq!(json(text).text(), value.to_string());
    }
}

#[test]
fn every_character_is_escaped_as_serde_json_does() {
    let texts = (0u32..0x300)
        .chain([0x2028, 0x2029, 0xfeff, 0xffff, 0x10000, 0x10ffff])
        .filter_map(char::from_u32)
        .map(String::from);
    for text in texts {
        let expected = serde_json::Value::String(text.clone()).to_string();
        assert_eq!(Json::Text(text).text(), expected);
    }
    assert_eq!(
        Json::Text("\u{1f}\u{8}\u{c}\"\\/\u{7f}".into()).text(),
        "\"\\u001f\\b\\f\\\"\\\\/\u{7f}\""
    );
}

#[test]
fn short_texts_find_room_in_a_new_session() {
    let mut tracker = LabelTracker::new(config());
    let invocation = tracker
        .begin("alice", &tool("fixture.read"), &call("fixture.read", "{}"))
        .unwrap();
    let count = (16 * 1024 * 1024 - 2) / 6;
    let output = tracker
        .finish(invocation, Ok(text(&"\u{1}".repeat(count))))
        .unwrap();
    assert!(variable_reference(&output.content[0]).starts_with("var_"));
}
