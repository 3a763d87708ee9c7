//! The tools that the middleware itself offers.
use crate::fides::message::{Tool, ToolView};
use crate::fides::references::{INSPECT_VARIABLE, QUARANTINED_LLM};
use crate::json::{entries_view, entry, items_view, Entries, EntriesView, Json, JsonView};
use crate::views::views;
use vstd::prelude::*;

verus! {

/// What the inspection tool says of itself.
pub const INSPECT_DESCRIPTION: &'static str = "Reveal a FIDES variable to this conversation. This taints the conversation's integrity; it does not release confidential data.";

/// What the quarantine tool says of itself.
pub const QUARANTINE_DESCRIPTION: &'static str = "Process FIDES variables in a fresh, tool-less LLM call. Returns a labeled variable, not sanitized or trusted text. Use variable_ids from hidden tool results.";

/// The schema of any string.
pub open spec fn string_schema() -> JsonView {
    JsonView::Object(seq![("type"@, JsonView::Text("string"@))])
}

/// The schema of between one and thirty-two strings.
pub open spec fn references_schema() -> JsonView {
    JsonView::Object(
        seq![
            ("items"@, string_schema()),
            ("maxItems"@, JsonView::Number("32"@)),
            ("minItems"@, JsonView::Number("1"@)),
            ("type"@, JsonView::Text("array"@)),
        ],
    )
}

/// The schema of an object with the given properties and no others.
pub open spec fn object_schema(properties: EntriesView, required: Seq<JsonView>) -> EntriesView {
    seq![
        ("additionalProperties"@, JsonView::Bool(false)),
        ("properties"@, JsonView::Object(properties)),
        ("required"@, JsonView::Array(required)),
        ("type"@, JsonView::Text("object"@)),
    ]
}

/// The inspection tool.
pub open spec fn inspect_tool() -> ToolView {
    ToolView {
        name: INSPECT_VARIABLE@,
        description: Some(INSPECT_DESCRIPTION@),
        input_schema: object_schema(
            seq![("reason"@, string_schema()), ("variable_id"@, string_schema())],
            seq![JsonView::Text("variable_id"@)],
        ),
        annotations: None,
    }
}

/// The quarantine tool.
pub open spec fn quarantine_tool() -> ToolView {
    ToolView {
        name: QUARANTINED_LLM@,
        description: Some(QUARANTINE_DESCRIPTION@),
        input_schema: object_schema(
            seq![("prompt"@, string_schema()), ("variable_ids"@, references_schema())],
            seq![JsonView::Text("prompt"@), JsonView::Text("variable_ids"@)],
        ),
        annotations: None,
    }
}

fn make_string_schema() -> (schema: Json)
    ensures
        schema@ == string_schema(),
{
    let mut entries: Entries = Vec::new();
    entries.push(entry("type", Json::Text("string".to_owned())));
    assert(entries_view(entries@) =~= string_schema()->Object_0);
    Json::Object(entries)
}

fn make_references_schema() -> (schema: Json)
    ensures
        schema@ == references_schema(),
{
    let mut entries: Entries = Vec::new();
    entries.push(entry("items", make_string_schema()));
    entries.push(entry("maxItems", Json::Number("32".to_owned())));
    entries.push(entry("minItems", Json::Number("1".to_owned())));
    entries.push(entry("type", Json::Text("array".to_owned())));
    assert(entries_view(entries@) =~= references_schema()->Object_0);
    Json::Object(entries)
}

fn make_object_schema(properties: Entries, required: Vec<Json>) -> (schema: Entries)
    ensures
        entries_view(schema@) == object_schema(
            entries_view(properties@),
            items_view(required@),
        ),
{
    let mut entries: Entries = Vec::new();
    entries.push(entry("additionalProperties", Json::Bool(false)));
    entries.push(entry("properties", Json::Object(properties)));
    entries.push(entry("required", Json::Array(required)));
    entries.push(entry("type", Json::Text("object".to_owned())));
    assert(entries_view(entries@) =~= object_schema(
        entries_view(properties@),
        items_view(required@),
    ));
    entries
}

/// The tools that the middleware itself offers.
pub fn security_tools() -> (tools: Vec<Tool>)
    ensures
        views(tools@) == seq![inspect_tool(), quarantine_tool()],
{
    let mut properties: Entries = Vec::new();
    properties.push(entry("reason", make_string_schema()));
    properties.push(entry("variable_id", make_string_schema()));
    assert(entries_view(properties@) =~= seq![
        ("reason"@, string_schema()),
        ("variable_id"@, string_schema()),
    ]);
    let mut required: Vec<Json> = Vec::new();
    required.push(Json::Text("variable_id".to_owned()));
    assert(items_view(required@) =~= seq![JsonView::Text("variable_id"@)]);
    let inspect = Tool::new(
        INSPECT_VARIABLE,
        INSPECT_DESCRIPTION,
        make_object_schema(properties, required),
    );
    let mut properties: Entries = Vec::new();
    properties.push(entry("prompt", make_string_schema()));
    properties.push(entry("variable_ids", make_references_schema()));
    assert(entries_view(properties@) =~= seq![
        ("prompt"@, string_schema()),
        ("variable_ids"@, references_schema()),
    ]);
    let mut required: Vec<Json> = Vec::new();
    required.push(Json::Text("prompt".to_owned()));
    required.push(Json::Text("variable_ids".to_owned()));
    assert(items_view(required@) =~= seq![
        JsonView::Text("prompt"@),
        JsonView::Text("variable_ids"@),
    ]);
    let quarantine = Tool::new(
        QUARANTINED_LLM,
        QUARANTINE_DESCRIPTION,
        make_object_schema(properties, required),
    );
    let mut tools: Vec<Tool> = Vec::new();
    tools.push(inspect);
    tools.push(quarantine);
    assert(views(tools@) =~= seq![inspect_tool(), quarantine_tool()]);
    tools
}

/// Each of the middleware's own tools says which arguments it takes: those that its schema lists,
/// no others, and of them the required ones always. A reason is not required; the quarantine
/// takes between one and thirty-two variables.
pub proof fn own_tools_say_what_they_take()
    ensures
        ({
            let text = JsonView::Object(seq![("type"@, JsonView::Text("string"@))]);
            let inspect = inspect_tool();
            let quarantine = quarantine_tool();
            &&& inspect.name == INSPECT_VARIABLE@
            &&& quarantine.name == QUARANTINED_LLM@
            &&& inspect.annotations is None && quarantine.annotations is None
            &&& inspect.input_schema == seq![
                ("additionalProperties"@, JsonView::Bool(false)),
                (
                    "properties"@,
                    JsonView::Object(seq![("reason"@, text), ("variable_id"@, text)]),
                ),
                ("required"@, JsonView::Array(seq![JsonView::Text("variable_id"@)])),
                ("type"@, JsonView::Text("object"@)),
            ]
            &&& quarantine.input_schema == seq![
                ("additionalProperties"@, JsonView::Bool(false)),
                (
                    "properties"@,
                    JsonView::Object(
                        seq![
                            ("prompt"@, text),
                            (
                                "variable_ids"@,
                                JsonView::Object(
                                    seq![
                                        ("items"@, text),
                                        ("maxItems"@, JsonView::Number("32"@)),
                                        ("minItems"@, JsonView::Number("1"@)),
                                        ("type"@, JsonView::Text("array"@)),
                                    ],
                                ),
                            ),
                        ],
                    ),
                ),
                (
                    "required"@,
                    JsonView::Array(
                        seq![JsonView::Text("prompt"@), JsonView::Text("variable_ids"@)],
                    ),
                ),
                ("type"@, JsonView::Text("object"@)),
            ]
        }),
{
}

} // verus!
