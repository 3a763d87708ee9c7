//! Records on the wire.
use crate::json::{
    entries_view, entry, items_view, text_value, texts_json, texts_value, Entries, EntriesView,
    Json, JsonView,
};
use crate::label::{
    ascending, name_set, names_are_canonical, Decision, Label, LabelView, ReaderSet, Readers,
    ReadersView,
};
use crate::line::line_of;
use crate::trace::{
    Dependencies, DependenciesView, Domain, DomainView, Exposure, Operation, Record, RecordView,
    ValueRef,
};
use crate::views::{option_view, views};
use vstd::prelude::*;

verus! {

/// The names of a set, in ascending order.
pub open spec fn listed(names: Set<Seq<char>>) -> Seq<Seq<char>> {
    views(choose|list: Seq<String>| #[trigger] ascending(list) && name_set(list) == names)
}

impl ReadersView {
    pub open spec fn json(self) -> JsonView {
        match self {
            ReadersView::Everyone => JsonView::Text("everyone"@),
            ReadersView::Only(names) => JsonView::Object(seq![("only"@, texts_json(listed(names)))]),
        }
    }
}

impl LabelView {
    pub open spec fn json(self) -> JsonView {
        match self {
            LabelView::Unknown => JsonView::Object(seq![("kind"@, JsonView::Text("unknown"@))]),
            LabelView::Known { realm, readers } => JsonView::Object(
                seq![
                    ("kind"@, JsonView::Text("known"@)),
                    ("realm"@, JsonView::Text(realm)),
                    ("readers"@, readers.json()),
                ],
            ),
        }
    }
}

impl DomainView {
    pub open spec fn json(self) -> JsonView {
        JsonView::Object(
            seq![
                ("audience"@, self.audience.json()),
                ("retained_context"@, self.retained_context.json()),
                ("policy_epoch"@, JsonView::Text(self.policy_epoch)),
            ],
        )
    }
}

impl DependenciesView {
    pub open spec fn json(self) -> JsonView {
        JsonView::Object(
            seq![
                ("inputs"@, texts_json(self.inputs)),
                ("instructions"@, texts_json(self.instructions)),
                ("history"@, texts_json(self.history)),
                ("schemas"@, texts_json(self.schemas)),
                ("settings"@, texts_json(self.settings)),
                ("control"@, texts_json(self.control)),
            ],
        )
    }
}

pub open spec fn operation_name(operation: Operation) -> Seq<char> {
    match operation {
        Operation::Source => "source"@,
        Operation::EnterContext => "enter_context"@,
        Operation::Exposure => "exposure"@,
        Operation::ModelCall => "model_call"@,
        Operation::ModelOutput => "model_output"@,
        Operation::ToolRequest => "tool_request"@,
        Operation::ToolResult => "tool_result"@,
        Operation::Error => "error"@,
        Operation::PublicationCheck => "publication_check"@,
    }
}

pub open spec fn decision_name(decision: Decision) -> Seq<char> {
    match decision {
        Decision::WouldAllow => "would_allow"@,
        Decision::WouldDeny => "would_deny"@,
    }
}

pub open spec fn exposure_name(exposure: Exposure) -> Seq<char> {
    match exposure {
        Exposure::Delivered => "delivered"@,
        Exposure::Withheld => "withheld"@,
    }
}

/// The decimal digits of a number.
pub open spec fn decimal(n: nat) -> Seq<char>
    decreases n,
{
    let digit = "0123456789"@[n as int % 10];
    if n < 10 {
        seq![digit]
    } else {
        decimal(n / 10).push(digit)
    }
}

/// A text, or null where there is none.
pub open spec fn text_or_null(text: Option<Seq<char>>) -> JsonView {
    match text {
        Some(text) => JsonView::Text(text),
        None => JsonView::Null,
    }
}

/// An entry that is left out where it has no value.
pub open spec fn optional(key: Seq<char>, value: Option<JsonView>) -> EntriesView {
    match value {
        Some(value) => seq![(key, value)],
        None => Seq::empty(),
    }
}

impl RecordView {
    /// The record on the wire. What does not apply to it is left out; its context and its
    /// digest are null where there are none.
    pub open spec fn json(self) -> JsonView {
        JsonView::Object(
            seq![
                ("version"@, JsonView::Number(decimal(self.version as nat))),
                ("id"@, JsonView::Text(self.id)),
                ("operation"@, JsonView::Text(operation_name(self.operation))),
                ("label"@, self.label.json()),
                ("context_ref"@, text_or_null(self.context_ref)),
                ("dependencies"@, self.dependencies.json()),
                ("content_digest"@, text_or_null(self.content_digest)),
                ("inputs_complete"@, JsonView::Bool(self.inputs_complete)),
            ] + optional(
                "domain"@,
                match self.domain {
                    Some(domain) => Some(domain.json()),
                    None => None,
                },
            ) + optional(
                "decision"@,
                match self.decision {
                    Some(decision) => Some(JsonView::Text(decision_name(decision))),
                    None => None,
                },
            ) + optional(
                "exposure"@,
                match self.exposure {
                    Some(exposure) => Some(JsonView::Text(exposure_name(exposure))),
                    None => None,
                },
            ) + optional(
                "checked_ref"@,
                match self.checked_ref {
                    Some(reference) => Some(JsonView::Text(reference)),
                    None => None,
                },
            ) + optional(
                "destination"@,
                match self.destination {
                    Some(label) => Some(label.json()),
                    None => None,
                },
            ),
        )
    }
}

fn decimal_text(n: u8) -> (text: String)
    ensures
        text@ == decimal(n as nat),
    decreases n,
{
    proof {
        reveal_strlit("0123456789");
    }
    let place: usize = (n % 10) as usize;
    let digit = "0123456789".substring_char(place, place + 1);
    assert(digit@ =~= seq!["0123456789"@[n as int % 10]]);
    if n < 10 {
        digit.to_owned()
    } else {
        let mut text = decimal_text(n / 10);
        let ghost before = text@;
        text.append(digit);
        assert(text@ =~= before.push("0123456789"@[n as int % 10]));
        text
    }
}

/// A list of references as a JSON array.
fn references_value(references: &Vec<ValueRef>) -> (value: Json)
    ensures
        value@ == texts_json(views(references@)),
{
    let mut items: Vec<Json> = Vec::new();
    let mut i: usize = 0;
    while i < references.len()
        invariant
            i <= references.len(),
            items.len() == i,
            forall|j: int|
                0 <= j < i ==> (#[trigger] items@[j])@ == JsonView::Text(references@[j]@),
        decreases references.len() - i,
    {
        items.push(Json::Text(references[i].0.clone()));
        i = i + 1;
    }
    assert(items_view(items@) =~= texts_json(views(references@))->Array_0);
    Json::Array(items)
}

fn reader_set_value(readers: &ReaderSet) -> (value: Json)
    ensures
        value@ == texts_json(listed(readers@)),
{
    let names = readers.names();
    proof {
        let list = choose|list: Seq<String>| #[trigger]
            ascending(list) && name_set(list) == readers@;
        assert(ascending(names@) && name_set(names@) == readers@);
        names_are_canonical(names@, list);
        assert(views(names@) =~= listed(readers@));
    }
    texts_value(&names)
}

impl Label {
    /// The label on the wire.
    pub fn to_json(&self) -> (value: Json)
        ensures
            value@ == self@.json(),
    {
        let mut entries: Entries = Vec::new();
        match self {
            Label::Unknown => {
                entries.push(entry("kind", text_value("unknown")));
            },
            Label::Known { realm, readers } => {
                let readers = match readers {
                    Readers::Everyone => text_value("everyone"),
                    Readers::Only(names) => {
                        let mut only: Entries = Vec::new();
                        only.push(entry("only", reader_set_value(names)));
                        assert(entries_view(only@) =~= seq![("only"@, texts_json(listed(names@)))]);
                        Json::Object(only)
                    },
                };
                entries.push(entry("kind", text_value("known")));
                entries.push(entry("realm", text_value(realm.as_str())));
                entries.push(entry("readers", readers));
            },
        }
        assert(entries_view(entries@) =~= self@.json()->Object_0);
        Json::Object(entries)
    }
}

fn domain_value(domain: &Domain) -> (value: Json)
    ensures
        value@ == domain@.json(),
{
    let mut entries: Entries = Vec::new();
    entries.push(entry("audience", domain.audience.to_json()));
    entries.push(entry("retained_context", domain.retained_context.to_json()));
    entries.push(entry("policy_epoch", text_value(domain.policy_epoch.as_str())));
    assert(entries_view(entries@) =~= domain@.json()->Object_0);
    Json::Object(entries)
}

fn dependencies_value(dependencies: &Dependencies) -> (value: Json)
    ensures
        value@ == dependencies@.json(),
{
    let mut entries: Entries = Vec::new();
    entries.push(entry("inputs", references_value(&dependencies.inputs)));
    entries.push(entry("instructions", references_value(&dependencies.instructions)));
    entries.push(entry("history", references_value(&dependencies.history)));
    entries.push(entry("schemas", references_value(&dependencies.schemas)));
    entries.push(entry("settings", references_value(&dependencies.settings)));
    entries.push(entry("control", references_value(&dependencies.control)));
    assert(entries_view(entries@) =~= dependencies@.json()->Object_0);
    Json::Object(entries)
}

fn operation_text(operation: Operation) -> (text: &'static str)
    ensures
        text@ == operation_name(operation),
{
    match operation {
        Operation::Source => "source",
        Operation::EnterContext => "enter_context",
        Operation::Exposure => "exposure",
        Operation::ModelCall => "model_call",
        Operation::ModelOutput => "model_output",
        Operation::ToolRequest => "tool_request",
        Operation::ToolResult => "tool_result",
        Operation::Error => "error",
        Operation::PublicationCheck => "publication_check",
    }
}

fn decision_text(decision: Decision) -> (text: &'static str)
    ensures
        text@ == decision_name(decision),
{
    match decision {
        Decision::WouldAllow => "would_allow",
        Decision::WouldDeny => "would_deny",
    }
}

fn exposure_text(exposure: Exposure) -> (text: &'static str)
    ensures
        text@ == exposure_name(exposure),
{
    match exposure {
        Exposure::Delivered => "delivered",
        Exposure::Withheld => "withheld",
    }
}

fn reference_value(reference: &Option<ValueRef>) -> (value: Json)
    ensures
        value@ == text_or_null(option_view(*reference)),
{
    match reference {
        Some(reference) => text_value(reference.0.as_str()),
        None => Json::Null,
    }
}

/// Puts an entry behind those that are there, where it has a value.
fn push_optional(entries: &mut Entries, key: &str, value: Option<Json>)
    ensures
        entries_view(final(entries)@) == entries_view(old(entries)@) + optional(
            key@,
            option_view(value),
        ),
{
    let ghost before = entries_view(entries@);
    let ghost given = option_view(value);
    if let Some(value) = value {
        entries.push(entry(key, value));
    }
    assert(entries_view(entries@) =~= before + optional(key@, given));
}

impl Record {
    /// The line that the record is written as.
    pub fn line(&self) -> (line: Vec<u8>)
        ensures
            line@ == line_of(self@.json()),
    {
        self.to_json().line()
    }

    /// The record on the wire.
    pub fn to_json(&self) -> (value: Json)
        ensures
            value@ == self@.json(),
    {
        let digest = match &self.content_digest {
            Some(digest) => text_value(digest.as_str()),
            None => Json::Null,
        };
        let mut entries: Entries = Vec::new();
        entries.push(entry("version", Json::Number(decimal_text(self.version))));
        entries.push(entry("id", text_value(self.id.0.as_str())));
        entries.push(entry("operation", text_value(operation_text(self.operation))));
        entries.push(entry("label", self.label.to_json()));
        entries.push(entry("context_ref", reference_value(&self.context_ref)));
        entries.push(entry("dependencies", dependencies_value(&self.dependencies)));
        entries.push(entry("content_digest", digest));
        entries.push(entry("inputs_complete", Json::Bool(self.inputs_complete)));
        let ghost head = seq![
            ("version"@, JsonView::Number(decimal(self@.version as nat))),
            ("id"@, JsonView::Text(self@.id)),
            ("operation"@, JsonView::Text(operation_name(self@.operation))),
            ("label"@, self@.label.json()),
            ("context_ref"@, text_or_null(self@.context_ref)),
            ("dependencies"@, self@.dependencies.json()),
            ("content_digest"@, text_or_null(self@.content_digest)),
            ("inputs_complete"@, JsonView::Bool(self@.inputs_complete)),
        ];
        assert(entries_view(entries@) =~= head);
        let domain = match &self.domain {
            Some(domain) => Some(domain_value(domain)),
            None => None,
        };
        push_optional(&mut entries, "domain", domain);
        let decision = match self.decision {
            Some(decision) => Some(text_value(decision_text(decision))),
            None => None,
        };
        push_optional(&mut entries, "decision", decision);
        let exposure = match self.exposure {
            Some(exposure) => Some(text_value(exposure_text(exposure))),
            None => None,
        };
        push_optional(&mut entries, "exposure", exposure);
        let checked_ref = match &self.checked_ref {
            Some(reference) => Some(text_value(reference.0.as_str())),
            None => None,
        };
        push_optional(&mut entries, "checked_ref", checked_ref);
        let destination = match &self.destination {
            Some(label) => Some(label.to_json()),
            None => None,
        };
        push_optional(&mut entries, "destination", destination);
        Json::Object(entries)
    }
}

} // verus!
