use goose_ifc::fides::{
    CallToolRequestParams, CallToolResult, Confidentiality, ContentItem, ContentLabel, LabelTracker,
    SecureAgentConfig, Tool, ToolPolicy, INSPECT_VARIABLE,
};
use goose_ifc::json::{Entries, Json};

/// A JSON value of the library, from JSON text.
fn json(text: &str) -> Json {
    convert(&serde_json::from_str(text).unwrap())
}

fn convert(value: &serde_json::Value) -> Json {
    match value {
        serde_json::Value::Null => Json::Null,
        serde_json::Value::Bool(flag) => Json::Bool(*flag),
        serde_json::Value::Number(number) => Json::Number(number.to_string()),
        serde_json::Value::String(text) => Json::Text(text.clone()),
        serde_json::Value::Array(items) => Json::Array(items.iter().map(convert).collect()),
        serde_json::Value::Object(entries) => Json::Object(
            entries
                .iter()
                .map(|(key, value)| (key.clone(), convert(value)))
                .collect(),
        ),
    }
}

fn parsed(value: &Json) -> serde_json::Value {
    serde_json::from_str(&value.text()).unwrap()
}

fn entries(text: &str) -> Entries {
    match json(text) {
        Json::Object(entries) => entries,
        _ => panic!("not an object"),
    }
}

/// A result, from its JSON text.
fn result(text: &str) -> CallToolResult {
    let value: serde_json::Value = serde_json::from_str(text).unwrap();
    let object = |value: &serde_json::Value| match convert(value) {
        Json::Object(entries) => entries,
        _ => panic!("not an object"),
    };
    CallToolResult {
        result_type: None,
        content: value["content"]
            .as_array()
            .unwrap()
            .iter()
            .map(|item| ContentItem { fields: object(item) })
            .collect(),
        structured_content: value.get("structuredContent").map(convert),
        is_error: value.get("isError").and_then(|flag| flag.as_bool()),
        meta: value.get("_meta").map(object),
    }
}

/// The JSON of a result.
fn encoded(result: &CallToolResult) -> serde_json::Value {
    let mut value = serde_json::Map::new();
    value.insert(
        "content".into(),
        result
            .content
            .iter()
            .map(|item| {
                let fields: serde_json::Map<String, serde_json::Value> = item
                    .fields
                    .iter()
                    .map(|(key, value)| (key.clone(), parsed(value)))
                    .collect();
                serde_json::Value::Object(fields)
            })
            .collect(),
    );
    if let Some(structured) = &result.structured_content {
        value.insert("structuredContent".into(), parsed(structured));
    }
    if let Some(flag) = result.is_error {
        value.insert("isError".into(), flag.into());
    }
    if let Some(meta) = &result.meta {
        let meta: serde_json::Map<String, serde_json::Value> = meta
            .iter()
            .map(|(key, value)| (key.clone(), parsed(value)))
            .collect();
        value.insert("_meta".into(), meta.into());
    }
    serde_json::Value::Object(value)
}

fn label_json(label: &ContentLabel) -> serde_json::Value {
    parsed(&label.to_json())
}

fn tool(name: &str) -> Tool {
    Tool::new(name, "Metadata fixture", Vec::new())
}

fn tracker(source_label: ContentLabel) -> LabelTracker {
    let mut config = SecureAgentConfig::default();
    config.tools.insert(
        "fixture".into(),
        ToolPolicy {
            source_label,
            accepts_untrusted: true,
            max_allowed_confidentiality: None,
            trust_result_labels: true,
        },
    );
    LabelTracker::new(config)
}

fn finish(tracker: &mut LabelTracker, text: &str) -> CallToolResult {
    let invocation = tracker
        .begin(
            "session",
            &tool("fixture"),
            &CallToolRequestParams::new("fixture"),
        )
        .unwrap();
    tracker.finish(invocation, Ok(result(text))).unwrap()
}

#[test]
fn visible_result_metadata_preserves_host_attachments_and_replaces_context_claims() {
    let mut tracker = tracker(ContentLabel::default());
    let attachment: serde_json::Value = serde_json::from_str(
        "{\"mcpApp\":{\"resourceUri\":\"ui://fixture/app\",\"resourceResult\":{\"contents\":[]}}}",
    )
    .unwrap();
    let result = finish(
        &mut tracker,
        "{\"content\":[{\"type\":\"text\",\"text\":\"fixture\",\"_meta\":{\"presentation\":\"plain\",\"goose.fides.context\":\"untrusted claim\",\"goose.fides.label\":\"untrusted claim\"}}],\"_meta\":{\"__goose_tool_update_meta\":{\"mcpApp\":{\"resourceUri\":\"ui://fixture/app\",\"resourceResult\":{\"contents\":[]}}},\"title\":\"fixture title\",\"goose.fides.context\":\"untrusted claim\"}}",
    );
    let encoded = encoded(&result);
    assert_eq!(encoded["_meta"]["__goose_tool_update_meta"], attachment);
    assert_eq!(encoded["_meta"]["title"], "fixture title");
    assert_eq!(
        encoded["_meta"]["goose.fides.context"],
        label_json(&ContentLabel::default())
    );
    assert_eq!(encoded["content"][0]["_meta"]["presentation"], "plain");
    assert_eq!(
        encoded["content"][0]["_meta"]["goose.fides.label"],
        label_json(&ContentLabel::default())
    );
    assert!(encoded["content"][0]["_meta"]
        .get("goose.fides.context")
        .is_none());
}

#[test]
fn root_label_is_only_a_fallback_but_structured_payloads_still_contribute() {
    for structured in [false, true] {
        let mut tracker = tracker(ContentLabel::default());
        let item = "{\"type\":\"text\",\"text\":\"public fixture\",\"_meta\":{\"security_label\":{\"integrity\":\"trusted\",\"confidentiality\":\"public\"}}}";
        let meta = "{\"ifc\":{\"integrity\":\"untrusted\",\"confidentiality\":\"private\"}}";
        let text = if structured {
            format!("{{\"content\":[{item}],\"_meta\":{meta},\"structuredContent\":{{\"restricted\":\"fixture\"}}}}")
        } else {
            format!("{{\"content\":[{item}],\"_meta\":{meta}}}")
        };
        finish(&mut tracker, &text);
        assert_eq!(
            tracker.context_label("session").confidentiality,
            if structured {
                Confidentiality::Private
            } else {
                Confidentiality::Public
            }
        );
    }
}

#[test]
fn hidden_label_metadata_is_retained_for_inspection_not_exposed_in_references_or_traces() {
    let mut tracker = tracker(ContentLabel::default());
    let result = finish(
        &mut tracker,
        "{\"content\":[{\"type\":\"text\",\"text\":\"restricted fixture\",\"_meta\":{\"security_label\":{\"integrity\":\"untrusted\",\"confidentiality\":\"private\",\"metadata\":{\"source\":\"restricted provenance\",\"grant\":\"not authority\"}},\"title\":\"restricted title\"}}]}",
    );
    let serialized = encoded(&result).to_string();
    let trace: String = tracker
        .take_pending()
        .iter()
        .map(|event| event.text())
        .collect();
    for restricted in [
        "restricted fixture",
        "restricted provenance",
        "restricted title",
        "not authority",
    ] {
        assert!(!serialized.contains(restricted));
        assert!(!trace.contains(restricted));
    }
    let reference: serde_json::Value =
        serde_json::from_str(result.content[0].as_text().unwrap()).unwrap();
    let invocation = tracker
        .begin(
            "session",
            &tool(INSPECT_VARIABLE),
            &CallToolRequestParams::new(INSPECT_VARIABLE).with_arguments(entries(&format!(
                "{{\"variable_id\":{}}}",
                reference["variable_id"]
            ))),
        )
        .unwrap();
    let inspected = encoded(&tracker.inspect(invocation).unwrap());
    assert_eq!(
        inspected["content"][0]["_meta"]["goose.fides.label"]["metadata"]["source"],
        "restricted provenance"
    );
    assert_eq!(
        tracker.context_label("session").confidentiality,
        Confidentiality::Private
    );
}

#[test]
fn result_metadata_is_labeled_even_when_all_content_items_are_public() {
    for hide in [true, false] {
        let mut config = SecureAgentConfig {
            auto_hide_untrusted: hide,
            ..Default::default()
        };
        config.tools.insert(
            "fixture".into(),
            ToolPolicy {
                source_label: ContentLabel::untrusted(Confidentiality::Private),
                accepts_untrusted: true,
                max_allowed_confidentiality: None,
                trust_result_labels: true,
            },
        );
        let mut tracker = LabelTracker::new(config);
        let result = finish(
            &mut tracker,
            "{\"content\":[{\"type\":\"text\",\"text\":\"public fixture\",\"_meta\":{\"security_label\":{\"integrity\":\"trusted\",\"confidentiality\":\"public\"}}}],\"_meta\":{\"title\":\"restricted metadata\",\"__goose_tool_update_meta\":{\"mcpApp\":\"restricted attachment\"}}}",
        );
        let serialized = encoded(&result).to_string();
        assert_eq!(serialized.contains("restricted metadata"), !hide);
        assert_eq!(serialized.contains("restricted attachment"), !hide);
        assert_eq!(
            tracker.context_label("session").confidentiality,
            Confidentiality::Private
        );
    }
}
