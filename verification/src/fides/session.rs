//! A session: its cumulative label and the variables hidden in it.
use crate::fides::content_label::{ContentLabel, ContentLabelView, Integrity};
use crate::json::{copy_entries, entry, json_text, Json, JsonView};
use crate::table::Table;
use vstd::prelude::*;
use vstd::utf8::*;

verus! {

/// How many variables a session holds at most.
pub const MAX_VARIABLES: usize = 1024;

/// How many bytes of payloads and label metadata a session holds at most.
pub const MAX_STORED_BYTES: usize = 16 * 1024 * 1024;

/// A value that was hidden, with its label.
#[derive(Debug)]
pub struct StoredVariable {
    pub(crate) payload: Json,
    pub(crate) label: ContentLabel,
}

pub struct VariableView {
    pub payload: JsonView,
    pub label: ContentLabelView,
}

impl View for StoredVariable {
    type V = VariableView;

    open(crate) spec fn view(&self) -> VariableView {
        VariableView { payload: self.payload@, label: self.label@ }
    }
}

/// How many bytes a variable takes: those of its payload's text, and those of its label's
/// metadata where there is any.
pub open spec fn stored_size(variable: VariableView) -> nat {
    encode_utf8(json_text(variable.payload)).len() + if variable.label.metadata.len() == 0 {
        0
    } else {
        encode_utf8(json_text(JsonView::Object(variable.label.metadata))).len()
    }
}

/// How many bytes all the variables take.
pub open spec fn total_size(variables: Map<Seq<char>, VariableView>) -> nat
    decreases variables.dom().len(),
{
    if variables.dom().finite() && variables.dom().len() > 0 {
        let name = variables.dom().choose();
        stored_size(variables[name]) + total_size(variables.remove(name))
    } else {
        0
    }
}

proof fn lemma_total_remove(variables: Map<Seq<char>, VariableView>, name: Seq<char>)
    requires
        variables.dom().finite(),
        variables.contains_key(name),
    ensures
        total_size(variables) == stored_size(variables[name]) + total_size(variables.remove(name)),
    decreases variables.dom().len(),
{
    let first = variables.dom().choose();
    if first != name {
        let rest = variables.remove(first);
        lemma_total_remove(rest, name);
        lemma_total_remove(variables.remove(name), first);
        assert(rest.remove(name) =~= variables.remove(name).remove(first));
    }
}

proof fn lemma_total_insert(
    variables: Map<Seq<char>, VariableView>,
    name: Seq<char>,
    variable: VariableView,
)
    requires
        variables.dom().finite(),
    ensures
        total_size(variables.insert(name, variable)) <= total_size(variables) + stored_size(variable),
{
    let after = variables.insert(name, variable);
    lemma_total_remove(after, name);
    if variables.contains_key(name) {
        lemma_total_remove(variables, name);
        assert(after.remove(name) =~= variables.remove(name));
    } else {
        assert(after.remove(name) =~= variables);
    }
}

/// One conversation: its label so far and what was hidden from it.
#[derive(Debug)]
pub struct Session {
    pub(crate) trace_id: String,
    pub(crate) label: ContentLabel,
    pub(crate) variables: Table<String, StoredVariable>,
    pub(crate) stored_bytes: usize,
}

/// What a session stands for.
#[verifier::ext_equal]
pub struct SessionView {
    /// The name of the session in events.
    pub trace_id: Seq<char>,
    /// The label of all that was shown in the session.
    pub label: ContentLabelView,
    /// The hidden variables by reference.
    pub variables: Map<Seq<char>, VariableView>,
    /// How many bytes were counted for them.
    pub stored_bytes: int,
}

impl View for Session {
    type V = SessionView;

    open(crate) spec fn view(&self) -> SessionView {
        SessionView {
            trace_id: self.trace_id@,
            label: self.label@,
            variables: self.variables@,
            stored_bytes: self.stored_bytes as int,
        }
    }
}

impl SessionView {
    /// A session in which nothing has happened.
    pub open spec fn fresh(trace_id: Seq<char>, label: ContentLabelView) -> SessionView {
        SessionView { trace_id, label, variables: Map::empty(), stored_bytes: 0 }
    }

    /// The session holds no more than it may.
    pub open spec fn bounded(self) -> bool {
        &&& self.variables.dom().finite()
        &&& self.variables.len() <= MAX_VARIABLES
        &&& total_size(self.variables) <= self.stored_bytes <= MAX_STORED_BYTES
    }

    /// Whether content with the given label is hidden, where hiding is on: untrusted content is,
    /// as long as the context is trusted.
    pub open spec fn conceals(self, hiding: bool, label: ContentLabelView) -> bool {
        hiding && label.integrity == Integrity::Untrusted && self.label.integrity
            == Integrity::Trusted
    }

    /// Whether another variable fits.
    pub open spec fn has_room(self, variable: VariableView) -> bool {
        self.variables.len() < MAX_VARIABLES && stored_size(variable) <= MAX_STORED_BYTES
            - self.stored_bytes
    }

    /// The session once `variable` is hidden under `reference`.
    pub open spec fn store(self, reference: Seq<char>, variable: VariableView) -> SessionView {
        SessionView {
            variables: self.variables.insert(reference, variable),
            stored_bytes: self.stored_bytes + stored_size(variable),
            ..self
        }
    }

    /// Whether content can be presented: it is shown, or there is room to hide it.
    pub open spec fn can_present(self, hiding: bool, variable: VariableView) -> bool {
        self.conceals(hiding, variable.label) ==> self.has_room(variable)
    }

    /// The session once content is presented under `reference`: with the variable where it is
    /// hidden, unchanged where it is shown, and with the label of what could not be hidden.
    pub open spec fn present(
        self,
        hiding: bool,
        variable: VariableView,
        reference: Seq<char>,
    ) -> SessionView {
        if !self.conceals(hiding, variable.label) {
            self
        } else if self.has_room(variable) {
            self.store(reference, variable)
        } else {
            SessionView { label: self.label.join(variable.label), ..self }
        }
    }
}

/// What stands in place of hidden content: the reference under which it is kept and the axes
/// of its label.
pub open spec fn placeholder(reference: Seq<char>, label: ContentLabelView) -> JsonView {
    JsonView::Object(
        seq![
            ("security_label"@, label.axes_json()),
            ("type"@, JsonView::Text("variable_reference"@)),
            ("variable_id"@, JsonView::Text(reference)),
        ],
    )
}

/// What is shown of some content.
pub open spec fn shown_as(
    concealed: bool,
    payload: JsonView,
    label: ContentLabelView,
    reference: Seq<char>,
) -> JsonView {
    if concealed {
        placeholder(reference, label)
    } else {
        payload
    }
}

fn make_placeholder(reference: &String, label: &ContentLabel) -> (value: Json)
    ensures
        value@ == placeholder(reference@, label@),
{
    let mut entries: Vec<(String, Json)> = Vec::new();
    entries.push(entry("security_label", label.axes_json()));
    entries.push(entry("type", Json::Text("variable_reference".to_owned())));
    entries.push(entry("variable_id", Json::Text(reference.clone())));
    let value = Json::Object(entries);
    assert(value@->Object_0 =~= placeholder(reference@, label@)->Object_0);
    value
}

/// Presenting content keeps a session within its bounds.
pub proof fn present_keeps_bounds(
    session: SessionView,
    hiding: bool,
    variable: VariableView,
    reference: Seq<char>,
)
    requires
        session.bounded(),
    ensures
        session.present(hiding, variable, reference).bounded(),
{
    if session.conceals(hiding, variable.label) && session.has_room(variable) {
        lemma_total_insert(session.variables, reference, variable);
        let after = session.variables.insert(reference, variable);
        assert(after.dom() =~= session.variables.dom().insert(reference));
    }
}

impl Session {
    /// No variable is listed twice, and the session is within its bounds.
    pub(crate) open spec fn wf(&self) -> bool {
        self.variables.wf() && self@.bounded()
    }

    pub(crate) fn fresh(trace_id: String, label: ContentLabel) -> (session: Self)
        ensures
            session.wf(),
            session@ == SessionView::fresh(trace_id@, label@),
    {
        let session = Session { trace_id, label, variables: Table::new(), stored_bytes: 0 };
        assert(session@ =~= SessionView::fresh(trace_id@, label@));
        session
    }

    /// Whether content with the given label is hidden.
    pub(crate) fn conceals(&self, hiding: bool, label: &ContentLabel) -> (conceals: bool)
        ensures
            conceals == self@.conceals(hiding, label@),
    {
        hiding && label.integrity == Integrity::Untrusted && self.label.integrity
            == Integrity::Trusted
    }

    /// Presents content under `reference`: hides it or hands it back. None where it would have
    /// to be hidden and there is no room.
    pub(crate) fn present(
        &mut self,
        hiding: bool,
        payload: Json,
        label: &ContentLabel,
        reference: String,
    ) -> (shown: Option<Json>)
        requires
            old(self).wf(),
        ensures
            final(self).wf(),
            ({
                let variable = VariableView { payload: payload@, label: label@ };
                let concealed = old(self)@.conceals(hiding, label@);
                &&& final(self)@ == old(self)@.present(hiding, variable, reference@)
                &&& shown is Some <==> old(self)@.can_present(hiding, variable)
                &&& shown matches Some(value) ==> value@ == shown_as(
                    concealed,
                    payload@,
                    label@,
                    reference@,
                )
            }),
    {
        let ghost variable = VariableView { payload: payload@, label: label@ };
        proof {
            present_keeps_bounds(self@, hiding, variable, reference@);
        }
        if !self.conceals(hiding, label) {
            return Some(payload);
        }
        let text = payload.text();
        let size: usize = text.as_str().as_bytes().len();
        let metadata_size: usize = if label.metadata.len() == 0 {
            0
        } else {
            let metadata = Json::Object(copy_entries(&label.metadata)).text();
            metadata.as_str().as_bytes().len()
        };
        let room: usize = MAX_STORED_BYTES - self.stored_bytes;
        if self.variables.len() >= MAX_VARIABLES || size > room || metadata_size > room - size {
            self.label = self.label.join(label);
            return None;
        }
        self.stored_bytes = self.stored_bytes + size + metadata_size;
        let shown = make_placeholder(&reference, label);
        self.variables.insert(reference, StoredVariable { payload, label: label.clone() });
        assert(self@ =~= old(self)@.store(reference@, variable));
        Some(shown)
    }
}

} // verus!
