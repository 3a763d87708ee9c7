//! Calls that passed the checks before dispatch.
use crate::fides::content_label::{ContentLabel, ContentLabelView};
use crate::fides::policy::{PolicyView, ToolPolicy};
use crate::json::{
    entries_view, entry, items_view, lookup, lookup_entry, Entries, EntriesView, Json, JsonView,
};
use vstd::prelude::*;

verus! {

/// A call that was checked and awaits its result.
#[derive(Debug)]
pub struct ToolInvocation {
    pub(crate) id: String,
    pub(crate) session_id: String,
    pub(crate) name: String,
    pub(crate) arguments: Entries,
    pub(crate) label: ContentLabel,
    pub(crate) policy: ToolPolicy,
    pub(crate) variables: Vec<Json>,
    pub(crate) blocked: bool,
}

/// What an invocation stands for.
#[verifier::ext_equal]
pub struct InvocationView {
    /// The name of the call in events.
    pub id: Seq<char>,
    /// The session in which the call was made.
    pub session_id: Seq<char>,
    /// The tool that is called.
    pub name: Seq<char>,
    /// The arguments, with forwarded variables in place.
    pub arguments: EntriesView,
    /// The label of the context together with those of the variables in the call.
    pub label: ContentLabelView,
    /// The policy under which the call was checked.
    pub policy: PolicyView,
    /// The payloads of the variables that the middleware's own tools work on.
    pub variables: Seq<JsonView>,
    /// Whether the call must not be carried out.
    pub blocked: bool,
}

impl View for ToolInvocation {
    type V = InvocationView;

    open(crate) spec fn view(&self) -> InvocationView {
        InvocationView {
            id: self.id@,
            session_id: self.session_id@,
            name: self.name@,
            arguments: entries_view(self.arguments@),
            label: self.label@,
            policy: self.policy@,
            variables: items_view(self.variables@),
            blocked: self.blocked,
        }
    }
}

impl InvocationView {
    /// What a quarantined model is asked: the prompt and the data, and nothing else.
    pub open spec fn quarantine_prompt(self) -> JsonView {
        JsonView::Object(
            seq![
                ("data"@, JsonView::Array(self.variables)),
                (
                    "request"@,
                    match lookup(self.arguments, "prompt"@) {
                        Some(prompt) => prompt,
                        None => JsonView::Null,
                    },
                ),
            ],
        )
    }
}

/// Copies a list of values.
fn copy_items(items: &Vec<Json>) -> (copies: Vec<Json>)
    ensures
        items_view(copies@) == items_view(items@),
{
    let mut copies: Vec<Json> = Vec::new();
    let mut i: usize = 0;
    while i < items.len()
        invariant
            i <= items.len(),
            copies.len() == i,
            forall|j: int| 0 <= j < i ==> (#[trigger] copies@[j])@ == items@[j]@,
        decreases items.len() - i,
    {
        copies.push(items[i].clone());
        i = i + 1;
    }
    assert(items_view(copies@) =~= items_view(items@));
    copies
}

impl ToolInvocation {
    /// The arguments, with forwarded variables in place.
    pub fn arguments(&self) -> (arguments: &Entries)
        ensures
            entries_view(arguments@) == self@.arguments,
    {
        &self.arguments
    }

    /// Whether the call must not be carried out.
    pub fn blocked(&self) -> (blocked: bool)
        ensures
            blocked == self@.blocked,
    {
        self.blocked
    }

    /// The tool that is called.
    pub fn name(&self) -> (name: &str)
        ensures
            name@ == self@.name,
    {
        self.name.as_str()
    }

    /// The label of the context together with those of the variables in the call.
    pub fn label(&self) -> (label: ContentLabel)
        ensures
            label@ == self@.label,
    {
        self.label.clone()
    }

    /// What a quarantined model is asked.
    pub fn quarantine_prompt(&self) -> (prompt: Json)
        ensures
            prompt@ == self@.quarantine_prompt(),
    {
        let request = match lookup_entry(&self.arguments, "prompt") {
            Some(prompt) => prompt.clone(),
            None => Json::Null,
        };
        let mut entries: Entries = Vec::new();
        entries.push(entry("data", Json::Array(copy_items(&self.variables))));
        entries.push(entry("request", request));
        assert(entries_view(entries@) =~= self@.quarantine_prompt()->Object_0);
        Json::Object(entries)
    }
}

} // verus!
