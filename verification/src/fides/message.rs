//! Tools, calls and results, as far as the middleware reads them.
use crate::digest::text_view;
use crate::json::{
    copy_entries, entries_view, entry, lookup, lookup_entry, remove_keys, without_keys, Entries,
    EntriesView, Json, JsonView,
};
use crate::text::same_text;
use crate::views::{option_view, views};
use vstd::prelude::*;

verus! {

/// What a tool says of itself.
#[derive(Clone, Copy, Debug, PartialEq, Eq)]
pub struct ToolAnnotations {
    pub read_only_hint: Option<bool>,
    pub open_world_hint: Option<bool>,
}

/// A tool that is offered to a model.
#[derive(Clone, Debug, PartialEq, Eq)]
pub struct Tool {
    pub name: String,
    pub description: Option<String>,
    pub input_schema: Entries,
    pub annotations: Option<ToolAnnotations>,
}

pub struct ToolView {
    pub name: Seq<char>,
    pub description: Option<Seq<char>>,
    pub input_schema: EntriesView,
    pub annotations: Option<ToolAnnotations>,
}

impl View for Tool {
    type V = ToolView;

    open spec fn view(&self) -> ToolView {
        ToolView {
            name: self.name@,
            description: text_view(self.description),
            input_schema: entries_view(self.input_schema@),
            annotations: self.annotations,
        }
    }
}

impl Tool {
    /// A tool without annotations.
    pub fn new(name: &str, description: &str, input_schema: Entries) -> (tool: Self)
        ensures
            tool@ == (ToolView {
                name: name@,
                description: Some(description@),
                input_schema: entries_view(input_schema@),
                annotations: None,
            }),
    {
        Tool {
            name: name.to_owned(),
            description: Some(description.to_owned()),
            input_schema,
            annotations: None,
        }
    }
}

/// A call of a tool.
#[derive(Clone, Debug, PartialEq, Eq)]
pub struct CallToolRequestParams {
    pub name: String,
    pub arguments: Option<Entries>,
}

pub struct CallView {
    pub name: Seq<char>,
    pub arguments: EntriesView,
}

impl View for CallToolRequestParams {
    type V = CallView;

    /// A call without arguments is one with none listed.
    open spec fn view(&self) -> CallView {
        CallView {
            name: self.name@,
            arguments: match self.arguments {
                Some(arguments) => entries_view(arguments@),
                None => Seq::empty(),
            },
        }
    }
}

impl CallToolRequestParams {
    /// A call without arguments.
    pub fn new(name: &str) -> (call: Self)
        ensures
            call@ == (CallView { name: name@, arguments: Seq::empty() }),
    {
        CallToolRequestParams { name: name.to_owned(), arguments: None }
    }

    /// The call with the given arguments.
    pub fn with_arguments(self, arguments: Entries) -> (call: Self)
        ensures
            call@ == (CallView { name: self@.name, arguments: entries_view(arguments@) }),
    {
        CallToolRequestParams { name: self.name, arguments: Some(arguments) }
    }
}

/// An item of a result, by the fields of its encoding.
#[derive(Clone, Debug, PartialEq, Eq)]
pub struct ContentItem {
    pub fields: Entries,
}

impl View for ContentItem {
    type V = EntriesView;

    open spec fn view(&self) -> EntriesView {
        entries_view(self.fields@)
    }
}

/// The item that holds a text.
pub open spec fn text_item(text: Seq<char>) -> EntriesView {
    seq![("text"@, JsonView::Text(text)), ("type"@, JsonView::Text("text"@))]
}

/// The text of an item, where it is of that type.
pub open spec fn item_text(item: EntriesView) -> Option<Seq<char>> {
    if lookup(item, "type"@) == Some(JsonView::Text("text"@)) {
        match lookup(item, "text"@) {
            Some(JsonView::Text(text)) => Some(text),
            _ => None,
        }
    } else {
        None
    }
}

/// The metadata of an item.
pub open spec fn item_metadata(item: EntriesView) -> Option<EntriesView> {
    match lookup(item, "_meta"@) {
        Some(JsonView::Object(metadata)) => Some(metadata),
        _ => None,
    }
}

/// The value that an item carries: its text, or all of it where it is no text.
pub open spec fn item_payload(item: EntriesView) -> JsonView {
    match item_text(item) {
        Some(text) => JsonView::Text(text),
        None => JsonView::Object(item),
    }
}

/// The keys under which labels and contexts are written or claimed.
pub open spec fn label_keys() -> Seq<Seq<char>> {
    seq!["security_label"@, "ifc"@, "goose.fides.label"@, "goose.fides.context"@]
}

/// Metadata with every claim of a label or a context taken out.
pub open spec fn plain_metadata(metadata: EntriesView) -> EntriesView {
    without_keys(metadata, label_keys())
}

/// An item with the label that the host gives it in place of any claim.
pub open spec fn labeled_item(item: EntriesView, label: JsonView) -> EntriesView {
    let metadata = match item_metadata(item) {
        Some(metadata) => plain_metadata(metadata),
        None => Seq::empty(),
    };
    without_keys(item, seq!["_meta"@]).push(
        ("_meta"@, JsonView::Object(metadata.push(("goose.fides.label"@, label)))),
    )
}

/// Takes every claim of a label or a context out of some metadata.
pub(crate) fn strip_label_keys(metadata: &Entries) -> (plain: Entries)
    ensures
        entries_view(plain@) == plain_metadata(entries_view(metadata@)),
{
    let keys: [&str; 4] = ["security_label", "ifc", "goose.fides.label", "goose.fides.context"];
    assert(views(keys@) =~= label_keys());
    remove_keys(metadata, &keys)
}

impl ContentItem {
    /// The item that holds a text.
    pub fn text(text: String) -> (item: Self)
        ensures
            item@ == text_item(text@),
    {
        let mut fields: Entries = Vec::new();
        fields.push(entry("text", Json::Text(text)));
        fields.push(entry("type", Json::Text("text".to_owned())));
        assert(entries_view(fields@) =~= text_item(text@));
        ContentItem { fields }
    }

    /// The text of the item, where it is of that type.
    pub fn as_text(&self) -> (text: Option<&String>)
        ensures
            match text {
                Some(text) => item_text(self@) == Some(text@),
                None => item_text(self@) is None,
            },
    {
        match lookup_entry(&self.fields, "type") {
            Some(Json::Text(kind)) => {
                if same_text(kind.as_str(), "text") {
                    match lookup_entry(&self.fields, "text") {
                        Some(Json::Text(text)) => Some(text),
                        _ => None,
                    }
                } else {
                    None
                }
            },
            _ => None,
        }
    }

    /// The metadata of the item.
    pub fn metadata(&self) -> (metadata: Option<&Entries>)
        ensures
            match metadata {
                Some(metadata) => item_metadata(self@) == Some(entries_view(metadata@)),
                None => item_metadata(self@) is None,
            },
    {
        match lookup_entry(&self.fields, "_meta") {
            Some(Json::Object(metadata)) => Some(metadata),
            _ => None,
        }
    }

    /// The value that the item carries.
    pub fn payload(&self) -> (payload: Json)
        ensures
            payload@ == item_payload(self@),
    {
        match self.as_text() {
            Some(text) => Json::Text(text.clone()),
            None => Json::Object(copy_entries(&self.fields)),
        }
    }

    /// The item with the label that the host gives it.
    pub fn labeled(&self, label: Json) -> (item: Self)
        ensures
            item@ == labeled_item(self@, label@),
    {
        let mut metadata: Entries = match self.metadata() {
            Some(metadata) => strip_label_keys(metadata),
            None => Vec::new(),
        };
        let ghost plain = match item_metadata(self@) {
            Some(metadata) => plain_metadata(metadata),
            None => Seq::empty(),
        };
        assert(entries_view(metadata@) =~= plain);
        metadata.push(entry("goose.fides.label", label));
        assert(entries_view(metadata@) =~= plain.push(("goose.fides.label"@, label@)));
        let keys: [&str; 1] = ["_meta"];
        assert(views(keys@) =~= seq!["_meta"@]);
        let mut fields = remove_keys(&self.fields, &keys);
        let ghost kept = entries_view(fields@);
        fields.push(entry("_meta", Json::Object(metadata)));
        assert(entries_view(fields@) =~= kept.push(
            ("_meta"@, JsonView::Object(plain.push(("goose.fides.label"@, label@)))),
        ));
        ContentItem { fields }
    }
}

/// The result of a tool call.
#[derive(Clone, Debug, PartialEq, Eq)]
pub struct CallToolResult {
    pub result_type: Option<String>,
    pub content: Vec<ContentItem>,
    pub structured_content: Option<Json>,
    pub is_error: Option<bool>,
    pub meta: Option<Entries>,
}

#[verifier::ext_equal]
pub struct ResultView {
    pub result_type: Option<Seq<char>>,
    pub content: Seq<EntriesView>,
    pub structured_content: Option<JsonView>,
    pub is_error: Option<bool>,
    pub meta: Option<EntriesView>,
}

impl View for CallToolResult {
    type V = ResultView;

    open spec fn view(&self) -> ResultView {
        ResultView {
            result_type: text_view(self.result_type),
            content: views(self.content@),
            structured_content: option_view(self.structured_content),
            is_error: self.is_error,
            meta: match self.meta {
                Some(meta) => Some(entries_view(meta@)),
                None => None,
            },
        }
    }
}

impl ResultView {
    pub open spec fn complete(content: Seq<EntriesView>, is_error: bool) -> ResultView {
        ResultView {
            result_type: Some("complete"@),
            content,
            structured_content: None,
            is_error: Some(is_error),
            meta: None,
        }
    }
}

impl CallToolResult {
    /// A result that reports success.
    pub fn success(content: Vec<ContentItem>) -> (result: Self)
        ensures
            result@ == ResultView::complete(views(content@), false),
    {
        CallToolResult {
            result_type: Some("complete".to_owned()),
            content,
            structured_content: None,
            is_error: Some(false),
            meta: None,
        }
    }

    /// A result that reports an error.
    pub fn error(content: Vec<ContentItem>) -> (result: Self)
        ensures
            result@ == ResultView::complete(views(content@), true),
    {
        CallToolResult {
            result_type: Some("complete".to_owned()),
            content,
            structured_content: None,
            is_error: Some(true),
            meta: None,
        }
    }
}

/// The one error of the middleware. It tells nothing of what failed.
#[derive(Clone, Debug, PartialEq, Eq)]
pub struct SecurityError {
    pub code: i32,
    pub message: String,
}

/// The code of an error in the parameters of a request.
pub const INVALID_PARAMS: i32 = -32602;

/// Whether the error says what the middleware's errors say, and no more.
pub open spec fn is_security_error(error: SecurityError) -> bool {
    error.code == INVALID_PARAMS && error.message@ == "FIDES operation unavailable or invalid"@
}

/// The one error of the middleware.
pub fn security_error() -> (error: SecurityError)
    ensures
        is_security_error(error),
{
    SecurityError {
        code: INVALID_PARAMS,
        message: "FIDES operation unavailable or invalid".to_owned(),
    }
}

/// What a fallible operation gave; none where it failed.
pub open spec fn outcome<T: View>(result: Result<T, SecurityError>) -> Option<T::V> {
    match result {
        Ok(value) => Some(value@),
        Err(_) => None,
    }
}

/// Whether an operation that failed did so with the one error.
pub open spec fn fails_plainly<T>(result: Result<T, SecurityError>) -> bool {
    result matches Err(error) ==> is_security_error(error)
}

} // verus!
