//! The events of the middleware. They hold labels, references and digests, never contents.
use crate::digest::{json_digest, json_digest_of};
use crate::fides::content_label::{ContentLabel, ContentLabelView};
use crate::fides::invocation::{InvocationView, ToolInvocation};
use crate::json::{
    copy_entries, entries_view, entry, text_value, texts_json, texts_value, Entries, Json,
    JsonView,
};
use crate::views::views;
use vstd::prelude::*;

verus! {

/// The event of a call: what it was made with, under which label, and what the policy says.
pub open spec fn call_event(
    trace_id: Seq<char>,
    invocation: InvocationView,
    references: Seq<Seq<char>>,
) -> JsonView {
    let label = invocation.label;
    JsonView::Object(
        seq![
            (
                "arguments_digest"@,
                JsonView::Text(json_digest_of(JsonView::Object(invocation.arguments))),
            ),
            ("blocked"@, JsonView::Bool(invocation.blocked)),
            (
                "confidentiality_violation"@,
                JsonView::Bool(invocation.policy.confidentiality_violation(label)),
            ),
            ("event"@, JsonView::Text("tool_call"@)),
            ("input_refs"@, texts_json(references)),
            (
                "integrity_violation"@,
                JsonView::Bool(invocation.policy.integrity_violation(label)),
            ),
            ("invocation"@, JsonView::Text(invocation.id)),
            ("label"@, label.axes_json()),
            ("session"@, JsonView::Text(trace_id)),
            ("tool_digest"@, JsonView::Text(json_digest_of(JsonView::Text(invocation.name)))),
            ("version"@, JsonView::Number("1"@)),
            ("would_allow"@, JsonView::Bool(invocation.policy.allows(label))),
        ],
    )
}

/// The event of a value that was presented: its digest, its label and whether it was hidden.
pub open spec fn value_event(
    trace_id: Seq<char>,
    invocation_id: Seq<char>,
    reference: Seq<char>,
    label: ContentLabelView,
    hidden: bool,
    content_digest: Seq<char>,
) -> JsonView {
    JsonView::Object(
        seq![
            ("content_digest"@, JsonView::Text(content_digest)),
            ("event"@, JsonView::Text("value"@)),
            ("hidden"@, JsonView::Bool(hidden)),
            ("invocation"@, JsonView::Text(invocation_id)),
            ("label"@, label.axes_json()),
            ("session"@, JsonView::Text(trace_id)),
            ("value_ref"@, JsonView::Text(reference)),
            ("version"@, JsonView::Number("1"@)),
        ],
    )
}

/// The event of a result: the label of the context before it and after it.
pub open spec fn result_event(
    trace_id: Seq<char>,
    invocation_id: Seq<char>,
    before: ContentLabelView,
    after: ContentLabelView,
    error: bool,
) -> JsonView {
    JsonView::Object(
        seq![
            ("context_after"@, after.axes_json()),
            ("context_before"@, before.axes_json()),
            ("error"@, JsonView::Bool(error)),
            ("event"@, JsonView::Text("tool_result"@)),
            ("invocation"@, JsonView::Text(invocation_id)),
            ("session"@, JsonView::Text(trace_id)),
            ("version"@, JsonView::Number("1"@)),
        ],
    )
}

fn version_number() -> (value: Json)
    ensures
        value@ == JsonView::Number("1"@),
{
    Json::Number("1".to_owned())
}

pub(crate) fn make_call_event(
    trace_id: &String,
    invocation: &ToolInvocation,
    references: &Vec<String>,
) -> (event: Json)
    ensures
        event@ == call_event(trace_id@, invocation@, views(references@)),
{
    let integrity_violation = invocation.policy.integrity_violation(&invocation.label);
    let confidentiality_violation = invocation.policy.confidentiality_violation(&invocation.label);
    let arguments_digest = json_digest(&Json::Object(copy_entries(&invocation.arguments)));
    let tool_digest = json_digest(&Json::Text(invocation.name.clone()));
    let mut entries: Entries = Vec::new();
    entries.push(entry("arguments_digest", Json::Text(arguments_digest)));
    entries.push(entry("blocked", Json::Bool(invocation.blocked)));
    entries.push(entry("confidentiality_violation", Json::Bool(confidentiality_violation)));
    entries.push(entry("event", text_value("tool_call")));
    entries.push(entry("input_refs", texts_value(references)));
    entries.push(entry("integrity_violation", Json::Bool(integrity_violation)));
    entries.push(entry("invocation", Json::Text(invocation.id.clone())));
    entries.push(entry("label", invocation.label.axes_json()));
    entries.push(entry("session", Json::Text(trace_id.clone())));
    entries.push(entry("tool_digest", Json::Text(tool_digest)));
    entries.push(entry("version", version_number()));
    entries.push(
        entry("would_allow", Json::Bool(!integrity_violation && !confidentiality_violation)),
    );
    assert(entries_view(entries@) =~= call_event(
        trace_id@,
        invocation@,
        views(references@),
    )->Object_0);
    Json::Object(entries)
}

pub(crate) fn make_value_event(
    trace_id: &String,
    invocation_id: &String,
    reference: &String,
    label: &ContentLabel,
    hidden: bool,
    content_digest: String,
) -> (event: Json)
    ensures
        event@ == value_event(
            trace_id@,
            invocation_id@,
            reference@,
            label@,
            hidden,
            content_digest@,
        ),
{
    let mut entries: Entries = Vec::new();
    entries.push(entry("content_digest", Json::Text(content_digest)));
    entries.push(entry("event", text_value("value")));
    entries.push(entry("hidden", Json::Bool(hidden)));
    entries.push(entry("invocation", Json::Text(invocation_id.clone())));
    entries.push(entry("label", label.axes_json()));
    entries.push(entry("session", Json::Text(trace_id.clone())));
    entries.push(entry("value_ref", Json::Text(reference.clone())));
    entries.push(entry("version", version_number()));
    assert(entries_view(entries@) =~= value_event(
        trace_id@,
        invocation_id@,
        reference@,
        label@,
        hidden,
        content_digest@,
    )->Object_0);
    Json::Object(entries)
}

pub(crate) fn make_result_event(
    trace_id: &String,
    invocation_id: &String,
    before: &ContentLabel,
    after: &ContentLabel,
    error: bool,
) -> (event: Json)
    ensures
        event@ == result_event(trace_id@, invocation_id@, before@, after@, error),
{
    let mut entries: Entries = Vec::new();
    entries.push(entry("context_after", after.axes_json()));
    entries.push(entry("context_before", before.axes_json()));
    entries.push(entry("error", Json::Bool(error)));
    entries.push(entry("event", text_value("tool_result")));
    entries.push(entry("invocation", Json::Text(invocation_id.clone())));
    entries.push(entry("session", Json::Text(trace_id.clone())));
    entries.push(entry("version", version_number()));
    assert(entries_view(entries@) =~= result_event(
        trace_id@,
        invocation_id@,
        before@,
        after@,
        error,
    )->Object_0);
    Json::Object(entries)
}

} // verus!
