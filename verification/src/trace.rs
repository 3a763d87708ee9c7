//! The reader-set observer: labels of values, their dependencies and the records of both.
use crate::digest::{content_digest, content_digest_of, encoding_view, text_view};
use crate::label::{Decision, Label, LabelView};
use crate::line::line_of;
use crate::table::{Table, TableKey};
use crate::text::{fresh_identifier, is_identifier};
use crate::views::{lemma_views_push, option_view, views};
use std::collections::VecDeque;
use vstd::prelude::*;

verus! {

/// How many values a trace remembers the labels of.
pub const VALUES_KEPT: usize = 4096;

/// The opaque name of a value.
#[derive(Debug, PartialEq, Eq, Hash)]
pub struct ValueRef(pub String);

impl View for ValueRef {
    type V = Seq<char>;

    open spec fn view(&self) -> Seq<char> {
        self.0@
    }
}

impl Clone for ValueRef {
    fn clone(&self) -> (copy: Self)
        ensures
            copy@ == self@,
    {
        ValueRef(self.0.clone())
    }
}

impl TableKey for ValueRef {
    fn same(&self, other: &Self) -> (same: bool) {
        self.0 == other.0
    }
}

/// A recorded value: its name and its label.
#[derive(Debug)]
pub struct Value {
    reference: ValueRef,
    label: Label,
}

pub struct ValueView {
    pub reference: Seq<char>,
    pub label: LabelView,
}

impl View for Value {
    type V = ValueView;

    closed spec fn view(&self) -> ValueView {
        ValueView { reference: self.reference@, label: self.label@ }
    }
}

impl ValueView {
    /// Whether the label is unknown wherever it has no realm.
    pub open spec fn normal(self) -> bool {
        self.label.normalized() == self.label
    }
}

impl Clone for Value {
    fn clone(&self) -> (copy: Self)
        ensures
            copy@ == self@,
    {
        proof {
            use_type_invariant(self);
        }
        Value { reference: self.reference.clone(), label: self.label.clone() }
    }
}

impl Value {
    #[verifier::type_invariant]
    spec fn has_normal_label(self) -> bool {
        self@.normal()
    }

    /// The name of the value.
    pub fn reference(&self) -> (reference: ValueRef)
        ensures
            reference@ == self@.reference,
    {
        self.reference.clone()
    }

    /// The label of the value. One that has no realm is unknown.
    pub fn label(&self) -> (label: &Label)
        ensures
            label@ == self@.label,
            self@.normal(),
    {
        proof {
            use_type_invariant(self);
        }
        &self.label
    }
}

/// Where a context starts: who is to see its work, what it already holds, and under which
/// policy that was decided.
#[derive(Debug)]
pub struct Domain {
    pub audience: Label,
    pub retained_context: Label,
    pub policy_epoch: String,
}

pub struct DomainView {
    pub audience: LabelView,
    pub retained_context: LabelView,
    pub policy_epoch: Seq<char>,
}

impl View for Domain {
    type V = DomainView;

    open spec fn view(&self) -> DomainView {
        DomainView {
            audience: self.audience@,
            retained_context: self.retained_context@,
            policy_epoch: self.policy_epoch@,
        }
    }
}

impl DomainView {
    pub open spec fn normalized(self) -> DomainView {
        DomainView {
            audience: self.audience.normalized(),
            retained_context: self.retained_context.normalized(),
            policy_epoch: self.policy_epoch,
        }
    }
}

impl Clone for Domain {
    fn clone(&self) -> (copy: Self)
        ensures
            copy@ == self@,
    {
        Domain {
            audience: self.audience.clone(),
            retained_context: self.retained_context.clone(),
            policy_epoch: self.policy_epoch.clone(),
        }
    }
}

/// A computation's execution context: its domain and the label of all it has seen.
#[derive(Debug)]
pub struct Context {
    domain: Domain,
    current: Value,
}

pub struct ContextView {
    pub domain: DomainView,
    pub current: ValueView,
}

impl View for Context {
    type V = ContextView;

    closed spec fn view(&self) -> ContextView {
        ContextView { domain: self.domain@, current: self.current@ }
    }
}

impl ContextView {
    /// Whether the labels of the domain and of the context are unknown wherever they have no
    /// realm.
    pub open spec fn normal(self) -> bool {
        self.domain.normalized() == self.domain && self.current.normal()
    }

    /// The context once it stands at a value that was recorded in it.
    pub open spec fn moved_to(self, value: ValueView) -> ContextView {
        ContextView { current: value, ..self }
    }
}

impl Context {
    #[verifier::type_invariant]
    spec fn has_normal_labels(self) -> bool {
        self@.normal()
    }
}

impl Clone for Context {
    fn clone(&self) -> (copy: Self)
        ensures
            copy@ == self@,
            self@.normal(),
    {
        proof {
            use_type_invariant(self);
        }
        Context { domain: self.domain.clone(), current: self.current.clone() }
    }
}

/// What a record is about.
#[derive(Clone, Copy, Debug, PartialEq, Eq, Structural)]
pub enum Operation {
    Source,
    EnterContext,
    Exposure,
    ModelCall,
    ModelOutput,
    ToolRequest,
    ToolResult,
    Error,
    PublicationCheck,
}

/// Whether a value was handed to a context.
#[derive(Clone, Copy, Debug, PartialEq, Eq, Structural)]
pub enum Exposure {
    Delivered,
    Withheld,
}

/// What a computation depends on, by role.
#[derive(Clone, Debug)]
pub struct Dependencies {
    pub inputs: Vec<ValueRef>,
    pub instructions: Vec<ValueRef>,
    pub history: Vec<ValueRef>,
    pub schemas: Vec<ValueRef>,
    pub settings: Vec<ValueRef>,
    pub control: Vec<ValueRef>,
}

pub struct DependenciesView {
    pub inputs: Seq<Seq<char>>,
    pub instructions: Seq<Seq<char>>,
    pub history: Seq<Seq<char>>,
    pub schemas: Seq<Seq<char>>,
    pub settings: Seq<Seq<char>>,
    pub control: Seq<Seq<char>>,
}

impl View for Dependencies {
    type V = DependenciesView;

    open spec fn view(&self) -> DependenciesView {
        DependenciesView {
            inputs: views(self.inputs@),
            instructions: views(self.instructions@),
            history: views(self.history@),
            schemas: views(self.schemas@),
            settings: views(self.settings@),
            control: views(self.control@),
        }
    }
}

impl DependenciesView {
    pub open spec fn none() -> DependenciesView {
        DependenciesView {
            inputs: Seq::empty(),
            instructions: Seq::empty(),
            history: Seq::empty(),
            schemas: Seq::empty(),
            settings: Seq::empty(),
            control: Seq::empty(),
        }
    }

    /// The dependencies of every role, in the order of the roles.
    pub open spec fn references(self) -> Seq<Seq<char>> {
        self.inputs + self.instructions + self.history + self.schemas + self.settings + self.control
    }
}

impl Default for Dependencies {
    fn default() -> (dependencies: Self)
        ensures
            dependencies@ == DependenciesView::none(),
    {
        let dependencies = Dependencies {
            inputs: Vec::new(),
            instructions: Vec::new(),
            history: Vec::new(),
            schemas: Vec::new(),
            settings: Vec::new(),
            control: Vec::new(),
        };
        assert(views(Seq::<ValueRef>::empty()) =~= Seq::<Seq<char>>::empty());
        dependencies
    }
}

/// Copies `more` behind `list`.
fn extend_references(list: &mut Vec<ValueRef>, more: &Vec<ValueRef>)
    ensures
        views(final(list)@) == views(old(list)@) + views(more@),
{
    let ghost before = views(list@);
    let mut i: usize = 0;
    assert(views(list@) =~= before + views(more@).take(0));
    while i < more.len()
        invariant
            i <= more.len(),
            views(list@) == before + views(more@).take(i as int),
        decreases more.len() - i,
    {
        let ghost listed = list@;
        let copy = more[i].clone();
        proof {
            lemma_views_push(listed, copy);
        }
        list.push(copy);
        i = i + 1;
        assert(views(list@) =~= before + views(more@).take(i as int));
    }
    assert(views(more@).take(i as int) =~= views(more@));
}

impl Dependencies {
    /// The dependencies of every role, in the order of the roles.
    pub fn references(&self) -> (all: Vec<ValueRef>)
        ensures
            views(all@) == self@.references(),
    {
        let mut all: Vec<ValueRef> = Vec::new();
        extend_references(&mut all, &self.inputs);
        assert(views(all@) =~= views(self.inputs@));
        extend_references(&mut all, &self.instructions);
        extend_references(&mut all, &self.history);
        extend_references(&mut all, &self.schemas);
        extend_references(&mut all, &self.settings);
        extend_references(&mut all, &self.control);
        all
    }
}

/// One line of a trace.
#[derive(Clone, Debug)]
pub struct Record {
    pub version: u8,
    pub id: ValueRef,
    pub operation: Operation,
    pub label: Label,
    pub context_ref: Option<ValueRef>,
    pub dependencies: Dependencies,
    pub content_digest: Option<String>,
    pub inputs_complete: bool,
    pub domain: Option<Domain>,
    pub decision: Option<Decision>,
    pub exposure: Option<Exposure>,
    pub checked_ref: Option<ValueRef>,
    pub destination: Option<Label>,
}

pub struct RecordView {
    pub version: u8,
    pub id: Seq<char>,
    pub operation: Operation,
    pub label: LabelView,
    pub context_ref: Option<Seq<char>>,
    pub dependencies: DependenciesView,
    pub content_digest: Option<Seq<char>>,
    pub inputs_complete: bool,
    pub domain: Option<DomainView>,
    pub decision: Option<Decision>,
    pub exposure: Option<Exposure>,
    pub checked_ref: Option<Seq<char>>,
    pub destination: Option<LabelView>,
}

impl View for Record {
    type V = RecordView;

    open spec fn view(&self) -> RecordView {
        RecordView {
            version: self.version,
            id: self.id@,
            operation: self.operation,
            label: self.label@,
            context_ref: option_view(self.context_ref),
            dependencies: self.dependencies@,
            content_digest: text_view(self.content_digest),
            inputs_complete: self.inputs_complete,
            domain: option_view(self.domain),
            decision: self.decision,
            exposure: self.exposure,
            checked_ref: option_view(self.checked_ref),
            destination: option_view(self.destination),
        }
    }
}

impl RecordView {
    /// A record with nothing but its operation, label and dependencies.
    pub open spec fn plain(
        id: Seq<char>,
        operation: Operation,
        label: LabelView,
        dependencies: DependenciesView,
    ) -> RecordView {
        RecordView {
            version: 1,
            id,
            operation,
            label,
            context_ref: None,
            dependencies,
            content_digest: None,
            inputs_complete: true,
            domain: None,
            decision: None,
            exposure: None,
            checked_ref: None,
            destination: None,
        }
    }

    pub open spec fn normalized(self) -> RecordView {
        RecordView { label: self.label.normalized(), ..self }
    }

    /// The value that the record is about.
    pub open spec fn value(self) -> ValueView {
        ValueView { reference: self.id, label: self.label.normalized() }
    }
}

/// The labels of recent values and the records that are still to be written.
#[derive(Debug)]
pub struct Trace {
    labels: Table<ValueRef, Label>,
    order: VecDeque<ValueRef>,
    pending: Vec<Record>,
    logging_failed: bool,
}

/// What a trace stands for.
#[verifier::ext_equal]
pub struct TraceView {
    /// The labels remembered.
    pub labels: Map<Seq<char>, LabelView>,
    /// The names recorded, oldest first.
    pub order: Seq<Seq<char>>,
    /// The records that are still to be written.
    pub pending: Seq<RecordView>,
    /// Whether writing has failed.
    pub logging_failed: bool,
}

impl View for Trace {
    type V = TraceView;

    closed spec fn view(&self) -> TraceView {
        TraceView {
            labels: self.labels@,
            order: views(self.order@),
            pending: views(self.pending@),
            logging_failed: self.logging_failed,
        }
    }
}

impl TraceView {
    pub open spec fn empty() -> TraceView {
        TraceView {
            labels: Map::empty(),
            order: Seq::empty(),
            pending: Seq::empty(),
            logging_failed: false,
        }
    }

    /// At most so many names are remembered, no label without its name, and none that has no
    /// realm and is not unknown.
    pub open spec fn bounded(self) -> bool {
        &&& self.order.len() <= VALUES_KEPT
        &&& forall|name: Seq<char>| #[trigger]
            self.labels.contains_key(name) ==> self.order.contains(name)
        &&& forall|name: Seq<char>|
            self.labels.contains_key(name) ==> (#[trigger] self.labels[name]).normalized()
                == self.labels[name]
    }

    /// The label of a named value; unknown where the name is not remembered.
    pub open spec fn resolve(self, reference: Seq<char>) -> LabelView {
        if self.labels.contains_key(reference) {
            self.labels[reference]
        } else {
            LabelView::Unknown
        }
    }

    /// The join of `start` with the labels of all the references.
    pub open spec fn join_all(self, start: LabelView, references: Seq<Seq<char>>) -> LabelView
        decreases references.len(),
    {
        if references.len() == 0 {
            start
        } else {
            self.join_all(start, references.drop_last()).join(self.resolve(references.last()))
        }
    }

    /// The trace once `record` is in it. The oldest name leaves where there are too many.
    pub open spec fn record(self, record: RecordView) -> TraceView {
        let labels = self.labels.insert(record.id, record.label.normalized());
        let order = self.order.push(record.id);
        let full = order.len() > VALUES_KEPT;
        TraceView {
            labels: if full {
                labels.remove(order[0])
            } else {
                labels
            },
            order: if full {
                order.drop_first()
            } else {
                order
            },
            pending: if self.logging_failed {
                self.pending
            } else {
                self.pending.push(record.normalized())
            },
            logging_failed: self.logging_failed,
        }
    }

    /// The lines of the records that are still to be written, oldest first.
    pub open spec fn lines(self) -> Seq<Seq<u8>> {
        self.pending.map_values(|record: RecordView| line_of(record.json()))
    }

    /// The line that is to be written next.
    pub open spec fn next_line(self) -> Option<Seq<u8>> {
        if self.pending.len() > 0 {
            Some(line_of(self.pending[0].json()))
        } else {
            None
        }
    }

    /// The trace once its next line is taken out.
    pub open spec fn taken(self) -> TraceView {
        TraceView {
            pending: if self.pending.len() > 0 {
                self.pending.drop_first()
            } else {
                self.pending
            },
            ..self
        }
    }

    /// The trace once it is known whether a line could be written.
    pub open spec fn noted(self, written: bool) -> TraceView {
        if written {
            self
        } else {
            TraceView { pending: Seq::empty(), logging_failed: true, ..self }
        }
    }

    /// What is tried to be written, line by line until none is left, and the trace afterwards.
    /// Of each line `works` says whether it can be written.
    pub open spec fn flush(self, works: Seq<bool>) -> (Seq<Seq<u8>>, TraceView)
        decreases self.pending.len(),
    {
        match self.next_line() {
            Some(line) => {
                let (later, after) = self.taken().noted(works[0]).flush(works.drop_first());
                (seq![line] + later, after)
            },
            None => (Seq::empty(), self),
        }
    }
}

/// The record of a source with the given encoding. What cannot be encoded is unknown.
pub open spec fn source_record(
    id: Seq<char>,
    encoding: Option<Seq<u8>>,
    label: LabelView,
) -> RecordView {
    RecordView {
        content_digest: content_digest_of(encoding),
        ..RecordView::plain(
            id,
            Operation::Source,
            if encoding is Some {
                label
            } else {
                LabelView::Unknown
            },
            DependenciesView::none(),
        )
    }
}

/// The record of entering a domain: its label is the join of the audience and of what is
/// retained.
pub open spec fn enter_record(id: Seq<char>, domain: DomainView) -> RecordView {
    let domain = domain.normalized();
    RecordView {
        domain: Some(domain),
        ..RecordView::plain(
            id,
            Operation::EnterContext,
            domain.audience.join(domain.retained_context),
            DependenciesView::none(),
        )
    }
}

/// The record of showing a value to a context, or of withholding it. The check of the audience
/// is recorded either way; only a delivered value joins the context's label.
pub open spec fn observe_record(
    trace: TraceView,
    id: Seq<char>,
    context: ContextView,
    reference: Seq<char>,
    actual: Exposure,
) -> RecordView {
    let input = trace.resolve(reference);
    let delivered = actual == Exposure::Delivered;
    RecordView {
        context_ref: Some(context.current.reference),
        checked_ref: Some(reference),
        decision: Some(input.decision(context.domain.audience)),
        exposure: Some(actual),
        ..RecordView::plain(
            id,
            Operation::Exposure,
            if delivered {
                context.current.label.join(input)
            } else {
                context.current.label
            },
            DependenciesView {
                inputs: if delivered {
                    seq![reference]
                } else {
                    Seq::empty()
                },
                ..DependenciesView::none()
            },
        )
    }
}

/// The record of a model call: the join of the context and of every dependency, or unknown
/// where the inputs are not all known.
pub open spec fn computation_record(
    trace: TraceView,
    id: Seq<char>,
    context: ContextView,
    dependencies: DependenciesView,
    inputs_complete: bool,
) -> RecordView {
    RecordView {
        context_ref: Some(context.current.reference),
        inputs_complete,
        ..RecordView::plain(
            id,
            Operation::ModelCall,
            if inputs_complete {
                trace.join_all(context.current.label, dependencies.references())
            } else {
                LabelView::Unknown
            },
            dependencies,
        )
    }
}

/// The record of an output: it has the label of the invocation, or is unknown where it cannot
/// be encoded or is an error.
pub open spec fn output_record(
    id: Seq<char>,
    invocation: ValueView,
    operation: Operation,
    encoding: Option<Seq<u8>>,
) -> RecordView {
    RecordView {
        content_digest: content_digest_of(encoding),
        ..RecordView::plain(
            id,
            operation,
            if encoding is None || operation == Operation::Error {
                LabelView::Unknown
            } else {
                invocation.label
            },
            DependenciesView { inputs: seq![invocation.reference], ..DependenciesView::none() },
        )
    }
}

/// The record of a tool's result: the join of the request that controlled it and of its
/// source; unknown without a request.
pub open spec fn tool_result_record(
    id: Seq<char>,
    request: Option<ValueView>,
    source: ValueView,
    encoding: Option<Seq<u8>>,
) -> RecordView {
    RecordView {
        content_digest: content_digest_of(encoding),
        ..RecordView::plain(
            id,
            Operation::ToolResult,
            match (request, encoding) {
                (Some(request), Some(_)) => request.label.join(source.label),
                _ => LabelView::Unknown,
            },
            DependenciesView {
                inputs: seq![source.reference],
                control: match request {
                    Some(request) => seq![request.reference],
                    None => Seq::empty(),
                },
                ..DependenciesView::none()
            },
        )
    }
}

/// The record of a publication check: the value, the control that chose it and the context
/// are joined and held against the destination.
pub open spec fn publication_record(
    trace: TraceView,
    id: Seq<char>,
    context: ContextView,
    reference: Seq<char>,
    destination: LabelView,
    control: Seq<Seq<char>>,
) -> RecordView {
    let dependencies = DependenciesView {
        inputs: seq![reference],
        control,
        ..DependenciesView::none()
    };
    let label = trace.join_all(context.current.label, dependencies.references());
    RecordView {
        context_ref: Some(context.current.reference),
        checked_ref: Some(reference),
        decision: Some(label.decision(destination)),
        destination: Some(destination.normalized()),
        ..RecordView::plain(id, Operation::PublicationCheck, label, dependencies)
    }
}

impl Trace {
    /// The table lists no name twice, and the trace is bounded.
    pub closed spec fn wf(&self) -> bool {
        self.labels.wf() && self@.bounded()
    }

    /// What well-formedness says of the labels.
    pub proof fn lemma_wf(&self)
        requires
            self.wf(),
        ensures
            self@.bounded(),
    {
    }

    /// A trace with nothing in it.
    pub fn new() -> (trace: Self)
        ensures
            trace.wf(),
            trace@ == TraceView::empty(),
    {
        let trace = Trace {
            labels: Table::new(),
            order: VecDeque::new(),
            pending: Vec::new(),
            logging_failed: false,
        };
        assert(trace@ =~= TraceView::empty());
        trace
    }

    /// Whether writing has failed.
    pub fn logging_failed(&self) -> (failed: bool)
        ensures
            failed == self@.logging_failed,
    {
        self.logging_failed
    }

    /// Hands over the records that are to be written, oldest first.
    pub fn take_pending(&mut self) -> (records: Vec<Record>)
        requires
            old(self).wf(),
        ensures
            final(self).wf(),
            views(records@) == old(self)@.pending,
            final(self)@ == (TraceView { pending: Seq::empty(), ..old(self)@ }),
    {
        let mut records: Vec<Record> = Vec::new();
        core::mem::swap(&mut records, &mut self.pending);
        assert(self@ =~= (TraceView { pending: Seq::empty(), ..old(self)@ }));
        records
    }

    /// Takes out the line that is to be written next; none where nothing is left to write.
    pub fn next_line(&mut self) -> (line: Option<Vec<u8>>)
        requires
            old(self).wf(),
        ensures
            final(self).wf(),
            option_view(line) == old(self)@.next_line(),
            final(self)@ == old(self)@.taken(),
    {
        if self.pending.len() == 0 {
            return None;
        }
        let record = self.pending.remove(0);
        assert(self@ =~= old(self)@.taken());
        Some(record.line())
    }

    /// Notes whether the line that was taken out could be written. Once one could not, nothing
    /// is written any more.
    pub fn note_written(&mut self, written: bool)
        requires
            old(self).wf(),
        ensures
            final(self).wf(),
            final(self)@ == old(self)@.noted(written),
    {
        if !written {
            self.logging_failed = true;
            self.pending = Vec::new();
        }
        assert(self@ =~= old(self)@.noted(written));
    }

    /// The label of a named value; unknown where the name is not remembered.
    pub fn resolve(&self, reference: &ValueRef) -> (label: Label)
        requires
            self.wf(),
        ensures
            label@ == self@.resolve(reference@),
            label@.normalized() == label@,
    {
        match self.labels.get(reference) {
            Some(label) => label.clone(),
            None => Label::default(),
        }
    }

    /// The join of `start` with the labels of all the references.
    fn join_all(&self, start: &Label, references: &Vec<ValueRef>) -> (label: Label)
        requires
            self.wf(),
        ensures
            label@ == self@.join_all(start@, views(references@)),
    {
        let mut label = start.clone();
        let ghost all = views(references@);
        let mut i: usize = 0;
        assert(all.take(0) =~= Seq::empty());
        while i < references.len()
            invariant
                self.wf(),
                i <= references.len(),
                all == views(references@),
                label@ == self@.join_all(start@, all.take(i as int)),
            decreases references.len() - i,
        {
            proof {
                assert(all.take(i + 1).drop_last() =~= all.take(i as int));
            }
            label = label.join(&self.resolve(&references[i]));
            i = i + 1;
        }
        assert(all.take(i as int) =~= all);
        label
    }

    /// Puts a record into the trace and gives the value that it is about.
    pub fn record(&mut self, record: Record) -> (value: Value)
        requires
            old(self).wf(),
        ensures
            final(self).wf(),
            final(self)@ == old(self)@.record(record@),
            value@ == record@.value(),
    {
        let ghost given = record@;
        let ghost before = *self;
        let mut record = record;
        record.label = record.label.normalized();
        let value = Value { reference: record.id.clone(), label: record.label.clone() };
        self.labels.insert(record.id.clone(), record.label.clone());
        let queued = record.id.clone();
        proof {
            lemma_views_push(self.order@, queued);
        }
        self.order.push_back(queued);
        if self.order.len() > VALUES_KEPT {
            if let Some(expired) = self.order.pop_front() {
                self.labels.remove(&expired);
                proof {
                    let order = before@.order.push(given.id);
                    assert(views(self.order@) =~= order.drop_first());
                }
            }
        }
        if !self.logging_failed {
            proof {
                lemma_views_push(self.pending@, record);
            }
            self.pending.push(record);
        }
        proof {
            assert(self@ =~= before@.record(given));
            record_keeps_bounds(before@, given);
        }
        value
    }

    fn record_fields(operation: Operation, label: Label, dependencies: Dependencies) -> (record:
        Record)
        ensures
            is_identifier(record@.id),
            record@ == RecordView::plain(record@.id, operation, label@, dependencies@),
    {
        Record {
            version: 1,
            id: ValueRef(fresh_identifier()),
            operation,
            label,
            context_ref: None,
            dependencies,
            content_digest: None,
            inputs_complete: true,
            domain: None,
            decision: None,
            exposure: None,
            checked_ref: None,
            destination: None,
        }
    }

    /// Records a value that comes from outside, by its encoding.
    pub fn source(&mut self, encoding: &Option<Vec<u8>>, label: Label) -> (value: Value)
        requires
            old(self).wf(),
        ensures
            final(self).wf(),
            is_identifier(value@.reference),
            ({
                let record = source_record(value@.reference, encoding_view(*encoding), label@);
                final(self)@ == old(self)@.record(record) && value@ == record.value()
            }),
    {
        let mut record = Self::record_fields(Operation::Source, label, Dependencies::default());
        record.content_digest = content_digest(encoding);
        if record.content_digest.is_none() {
            record.label = Label::Unknown;
        }
        self.record(record)
    }

    /// Enters a context in the given domain.
    pub fn enter(&mut self, domain: Domain) -> (context: Context)
        requires
            old(self).wf(),
        ensures
            final(self).wf(),
            is_identifier(context@.current.reference),
            context@.domain == domain@.normalized(),
            context@.normal(),
            ({
                let record = enter_record(context@.current.reference, domain@);
                final(self)@ == old(self)@.record(record) && context@.current == record.value()
            }),
    {
        let domain = Domain {
            audience: domain.audience.normalized(),
            retained_context: domain.retained_context.normalized(),
            policy_epoch: domain.policy_epoch,
        };
        let mut record = Self::record_fields(
            Operation::EnterContext,
            domain.audience.join(&domain.retained_context),
            Dependencies::default(),
        );
        record.domain = Some(domain.clone());
        Context { domain, current: self.record(record) }
    }

    /// Records that a value was shown to a context, or withheld from it.
    pub fn observe(
        &mut self,
        context: &mut Context,
        reference: ValueRef,
        actual: Exposure,
    ) -> (value: Value)
        requires
            old(self).wf(),
        ensures
            final(self).wf(),
            is_identifier(value@.reference),
            final(context)@ == old(context)@.moved_to(value@),
            actual == Exposure::Withheld ==> value@.label == old(context)@.current.label,
            ({
                let record = observe_record(
                    old(self)@,
                    value@.reference,
                    old(context)@,
                    reference@,
                    actual,
                );
                final(self)@ == old(self)@.record(record) && value@ == record.value()
            }),
    {
        proof {
            use_type_invariant(&*context);
        }
        let input = self.resolve(&reference);
        let mut record = Self::record_fields(
            Operation::Exposure,
            context.current.label.clone(),
            Dependencies::default(),
        );
        record.context_ref = Some(context.current.reference());
        record.checked_ref = Some(reference.clone());
        record.decision = Some(input.check_audience(&context.domain.audience));
        record.exposure = Some(actual);
        let ghost listed = record.dependencies.inputs@;
        if actual == Exposure::Delivered {
            record.label = record.label.join(&input);
            proof {
                lemma_views_push(listed, reference);
            }
            record.dependencies.inputs.push(reference);
            assert(views(record.dependencies.inputs@) =~= seq![reference@]);
        }
        context.current = self.record(record);
        context.current.clone()
    }

    /// Records a model call that depends on the given values.
    pub fn computation(
        &mut self,
        context: &mut Context,
        dependencies: Dependencies,
        inputs_complete: bool,
    ) -> (value: Value)
        requires
            old(self).wf(),
        ensures
            final(self).wf(),
            is_identifier(value@.reference),
            final(context)@ == old(context)@.moved_to(value@),
            ({
                let record = computation_record(
                    old(self)@,
                    value@.reference,
                    old(context)@,
                    dependencies@,
                    inputs_complete,
                );
                final(self)@ == old(self)@.record(record) && value@ == record.value()
            }),
    {
        proof {
            use_type_invariant(&*context);
        }
        let label = if inputs_complete {
            self.join_all(&context.current.label, &dependencies.references())
        } else {
            Label::Unknown
        };
        let mut record = Self::record_fields(Operation::ModelCall, label, dependencies);
        record.context_ref = Some(context.current.reference());
        record.inputs_complete = inputs_complete;
        context.current = self.record(record);
        context.current.clone()
    }

    /// Records what an invocation gave, by its encoding.
    pub fn output(
        &mut self,
        invocation: &Value,
        operation: Operation,
        encoding: &Option<Vec<u8>>,
    ) -> (value: Value)
        requires
            old(self).wf(),
        ensures
            final(self).wf(),
            is_identifier(value@.reference),
            encoding is Some && operation != Operation::Error ==> value@.label == invocation@.label,
            ({
                let record = output_record(
                    value@.reference,
                    invocation@,
                    operation,
                    encoding_view(*encoding),
                );
                final(self)@ == old(self)@.record(record) && value@ == record.value()
            }),
    {
        proof {
            use_type_invariant(invocation);
        }
        let mut dependencies = Dependencies::default();
        dependencies.inputs = vec![invocation.reference()];
        assert(views(dependencies.inputs@) =~= seq![invocation@.reference]);
        let mut record = Self::record_fields(operation, invocation.label.clone(), dependencies);
        record.content_digest = content_digest(encoding);
        if record.content_digest.is_none() || operation == Operation::Error {
            record.label = Label::Unknown;
        }
        self.record(record)
    }

    /// Records the result of a tool, by its encoding.
    pub fn tool_result(
        &mut self,
        request: Option<&Value>,
        source: &Value,
        encoding: &Option<Vec<u8>>,
    ) -> (value: Value)
        requires
            old(self).wf(),
        ensures
            final(self).wf(),
            is_identifier(value@.reference),
            ({
                let record = tool_result_record(
                    value@.reference,
                    match request {
                        Some(request) => Some(request@),
                        None => None,
                    },
                    source@,
                    encoding_view(*encoding),
                );
                final(self)@ == old(self)@.record(record) && value@ == record.value()
            }),
    {
        let mut dependencies = Dependencies::default();
        dependencies.inputs = vec![source.reference()];
        assert(views(dependencies.inputs@) =~= seq![source@.reference]);
        let label = match request {
            Some(request) => {
                dependencies.control = vec![request.reference()];
                assert(views(dependencies.control@) =~= seq![request@.reference]);
                request.label.join(&source.label)
            },
            None => Label::default(),
        };
        let mut record = Self::record_fields(Operation::ToolResult, label, dependencies);
        record.content_digest = content_digest(encoding);
        if record.content_digest.is_none() {
            record.label = Label::Unknown;
        }
        self.record(record)
    }

    /// Checks whether a value, chosen under the given control, would be allowed to a
    /// destination.
    pub fn check_publication(
        &mut self,
        context: &mut Context,
        reference: ValueRef,
        destination: Label,
        control: Vec<ValueRef>,
    ) -> (value: Value)
        requires
            old(self).wf(),
        ensures
            final(self).wf(),
            is_identifier(value@.reference),
            final(context)@ == old(context)@.moved_to(value@),
            ({
                let record = publication_record(
                    old(self)@,
                    value@.reference,
                    old(context)@,
                    reference@,
                    destination@,
                    views(control@),
                );
                final(self)@ == old(self)@.record(record) && value@ == record.value()
            }),
    {
        proof {
            use_type_invariant(&*context);
        }
        let mut dependencies = Dependencies::default();
        dependencies.inputs = vec![reference.clone()];
        dependencies.control = control;
        assert(views(dependencies.inputs@) =~= seq![reference@]);
        let label = self.join_all(&context.current.label, &dependencies.references());
        let mut record = Self::record_fields(
            Operation::PublicationCheck,
            label.clone(),
            dependencies,
        );
        record.context_ref = Some(context.current.reference());
        record.checked_ref = Some(reference);
        record.decision = Some(label.check_audience(&destination));
        record.destination = Some(destination.normalized());
        context.current = self.record(record);
        context.current.clone()
    }
}

/// Recording keeps a trace bounded.
pub proof fn record_keeps_bounds(trace: TraceView, record: RecordView)
    requires
        trace.bounded(),
    ensures
        trace.record(record).bounded(),
{
    let after = trace.record(record);
    let order = trace.order.push(record.id);
    assert forall|name: Seq<char>| #[trigger] after.labels.contains_key(name) implies after.order.contains(
        name,
    ) by {
        if name == record.id {
            assert(order[trace.order.len() as int] == name);
        } else {
            assert(trace.labels.contains_key(name));
            let i = choose|i: int| 0 <= i < trace.order.len() && trace.order[i] == name;
            assert(order[i] == name);
        }
        let i = choose|i: int| 0 <= i < order.len() && order[i] == name;
        if order.len() > VALUES_KEPT {
            assert(name != order[0]);
            assert(order.drop_first()[i - 1] == name);
        }
    }
}

} // verus!
