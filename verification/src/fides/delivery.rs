//! Labeling, hiding and delivering the result of a call.
use crate::digest::{json_digest, json_digest_of};
use crate::fides::content_label::{Confidentiality, ContentLabel, ContentLabelView};
use crate::fides::event::{make_result_event, make_value_event, result_event, value_event};
use crate::fides::invocation::{InvocationView, ToolInvocation};
use crate::fides::message::{
    item_metadata, item_payload, labeled_item, outcome, plain_metadata, strip_label_keys,
    text_item, CallToolResult, ContentItem, ResultView, SecurityError,
};
use crate::fides::session::{
    placeholder, present_keeps_bounds, shown_as, Session, SessionView, StoredVariable,
    VariableView,
};
use crate::json::{
    entries_view, entry, json_text, lookup, lookup_entry, Entries, EntriesView, Json, JsonView,
};
use crate::text::{concat, fresh_identifier, is_identifier};
use crate::views::{lemma_views_push, option_view, views};
use vstd::prelude::*;

verus! {

/// The label that a value claims; one that cannot be read is taken at its most restrictive.
pub open spec fn claimed_label(claim: JsonView) -> ContentLabelView {
    match crate::fides::content_label::label_of_json(claim) {
        Some(label) => label,
        None => ContentLabelView::untrusted(Confidentiality::UserIdentity),
    }
}

/// The label that metadata claims, under `security_label` or else under `ifc`; `fallback`
/// where it claims none.
pub open spec fn metadata_label(
    metadata: Option<EntriesView>,
    fallback: ContentLabelView,
) -> ContentLabelView {
    match metadata {
        Some(entries) => match lookup(entries, "security_label"@) {
            Some(claim) => claimed_label(claim),
            None => match lookup(entries, "ifc"@) {
                Some(claim) => claimed_label(claim),
                None => fallback,
            },
        },
        None => fallback,
    }
}

/// What stands for the result of a call that could not be carried out.
pub open spec fn failure_result() -> ResultView {
    ResultView::complete(seq![text_item("FIDES tool execution failed"@)], true)
}

/// The result that is labeled: the one that came, or a fixed one where none did.
pub open spec fn settled(result: Option<ResultView>) -> ResultView {
    match result {
        Some(result) => result,
        None => failure_result(),
    }
}

/// The metadata of a result, without claims of labels.
pub open spec fn kept_metadata(result: ResultView) -> EntriesView {
    match result.meta {
        Some(meta) => plain_metadata(meta),
        None => Seq::empty(),
    }
}

impl InvocationView {
    /// The label of results that claim none: the one that is imposed, else the one of the
    /// tool; for a failure, joined with what the call was made with.
    pub open spec fn fallback_label(
        self,
        result: ResultView,
        imposed: Option<ContentLabelView>,
    ) -> ContentLabelView {
        let source = match imposed {
            Some(label) => label,
            None => self.policy.source_label,
        };
        if result.is_error == Some(true) {
            source.join(ContentLabelView::untrusted(self.label.confidentiality))
        } else {
            source
        }
    }

    /// Whether labels in the result are believed.
    pub open spec fn believes(self, imposed: Option<ContentLabelView>) -> bool {
        self.policy.trust_result_labels && imposed is None
    }

    /// The label of the result as a whole.
    pub open spec fn root_label(
        self,
        result: ResultView,
        imposed: Option<ContentLabelView>,
    ) -> ContentLabelView {
        let fallback = self.fallback_label(result, imposed);
        if self.believes(imposed) {
            metadata_label(result.meta, fallback)
        } else {
            fallback
        }
    }

    /// An item of the result, with its label.
    pub open spec fn item_part(
        self,
        item: EntriesView,
        root: ContentLabelView,
        imposed: Option<ContentLabelView>,
    ) -> VariableView {
        VariableView {
            payload: item_payload(item),
            label: if self.believes(imposed) {
                metadata_label(item_metadata(item), root)
            } else {
                root
            },
        }
    }

    /// The values of a result, in the order in which they are presented: the items, then the
    /// structured content and the metadata where there are any.
    pub open spec fn parts(
        self,
        result: ResultView,
        imposed: Option<ContentLabelView>,
    ) -> Seq<VariableView> {
        let root = self.root_label(result, imposed);
        let items = Seq::new(
            result.content.len(),
            |i: int| self.item_part(result.content[i], root, imposed),
        );
        let structured = match result.structured_content {
            Some(payload) => seq![VariableView { payload, label: root }],
            None => Seq::empty(),
        };
        let metadata = kept_metadata(result);
        items + structured + if metadata.len() == 0 {
            Seq::empty()
        } else {
            seq![VariableView { payload: JsonView::Object(metadata), label: root }]
        }
    }
}

/// How many values a result has.
pub open spec fn part_count(result: ResultView) -> nat {
    result.content.len() + (if result.structured_content is Some {
        1nat
    } else {
        0nat
    }) + (if kept_metadata(result).len() == 0 {
        0nat
    } else {
        1nat
    })
}

/// What became of a session to which values were presented.
#[verifier::ext_equal]
pub struct Delivery {
    pub session: SessionView,
    pub events: Seq<JsonView>,
    /// Whether there was room for all that was to be hidden.
    pub complete: bool,
}

/// Presents values in order, each under its reference, up to the first that has no room.
pub open spec fn delivered(
    session: SessionView,
    invocation_id: Seq<char>,
    hiding: bool,
    parts: Seq<VariableView>,
    references: Seq<Seq<char>>,
) -> Delivery
    decreases parts.len(),
{
    if parts.len() == 0 {
        Delivery { session, events: Seq::empty(), complete: true }
    } else {
        let before = delivered(
            session,
            invocation_id,
            hiding,
            parts.drop_last(),
            references.drop_last(),
        );
        let part = parts.last();
        let reference = references.last();
        if !before.complete {
            before
        } else if before.session.can_present(hiding, part) {
            Delivery {
                session: before.session.present(hiding, part, reference),
                events: before.events.push(
                    value_event(
                        session.trace_id,
                        invocation_id,
                        reference,
                        part.label,
                        before.session.conceals(hiding, part.label),
                        json_digest_of(part.payload),
                    ),
                ),
                complete: true,
            }
        } else {
            Delivery {
                session: before.session.present(hiding, part, reference),
                complete: false,
                ..before
            }
        }
    }
}

/// The context once content with `label` was presented in it: hidden content adds its
/// confidentiality, shown content its integrity too.
pub open spec fn absorbed(
    context: ContentLabelView,
    label: ContentLabelView,
    hidden: bool,
) -> ContentLabelView {
    ContentLabelView {
        integrity: if hidden {
            context.integrity
        } else {
            context.integrity.higher(label.integrity)
        },
        confidentiality: context.confidentiality.higher(label.confidentiality),
        metadata: context.metadata,
    }
}

/// The context of `session` once all parts were presented in it.
pub open spec fn absorbed_all(
    session: SessionView,
    hiding: bool,
    parts: Seq<VariableView>,
) -> ContentLabelView
    decreases parts.len(),
{
    if parts.len() == 0 {
        session.label
    } else {
        absorbed(
            absorbed_all(session, hiding, parts.drop_last()),
            parts.last().label,
            session.conceals(hiding, parts.last().label),
        )
    }
}

/// The context after a result. One without any value still adds the confidentiality of its
/// root, and a failure adds all of the root.
pub open spec fn context_after(
    session: SessionView,
    hiding: bool,
    parts: Seq<VariableView>,
    root: ContentLabelView,
    failed: bool,
) -> ContentLabelView {
    let context = if parts.len() == 0 {
        ContentLabelView {
            confidentiality: session.label.confidentiality.higher(root.confidentiality),
            ..session.label
        }
    } else {
        absorbed_all(session, hiding, parts)
    };
    if failed {
        context.join(root)
    } else {
        context
    }
}

/// An item as it is handed on: a placeholder, or the item with its label.
pub open spec fn item_shown(
    item: EntriesView,
    label: ContentLabelView,
    hidden: bool,
    reference: Seq<char>,
) -> EntriesView {
    if hidden {
        text_item(json_text(placeholder(reference, label)))
    } else {
        labeled_item(item, label.json())
    }
}

/// The result as it is handed on. Hidden metadata is left out; the label of the context is
/// put in.
pub open spec fn result_shown(
    session: SessionView,
    hiding: bool,
    result: ResultView,
    parts: Seq<VariableView>,
    root: ContentLabelView,
    references: Seq<Seq<char>>,
    context: ContentLabelView,
) -> ResultView {
    let count = result.content.len();
    ResultView {
        result_type: result.result_type,
        content: Seq::new(
            count,
            |i: int|
                item_shown(
                    result.content[i],
                    parts[i].label,
                    session.conceals(hiding, parts[i].label),
                    references[i],
                ),
        ),
        structured_content: match result.structured_content {
            Some(payload) => Some(
                shown_as(session.conceals(hiding, root), payload, root, references[count as int]),
            ),
            None => None,
        },
        is_error: result.is_error,
        meta: Some(
            (if session.conceals(hiding, root) {
                Seq::empty()
            } else {
                kept_metadata(result)
            }).push(("goose.fides.context"@, context.json())),
        ),
    }
}

/// What a result comes to.
#[verifier::ext_equal]
pub struct Conclusion {
    pub session: SessionView,
    pub events: Seq<JsonView>,
    /// The result that is handed on; none where there was no room for what was to be hidden.
    pub output: Option<ResultView>,
}

/// Labels a result, presents its values and brings the context up to date.
pub open spec fn concluded(
    session: SessionView,
    invocation: InvocationView,
    hiding: bool,
    result: Option<ResultView>,
    imposed: Option<ContentLabelView>,
    references: Seq<Seq<char>>,
) -> Conclusion {
    let raw = settled(result);
    let root = invocation.root_label(raw, imposed);
    let parts = invocation.parts(raw, imposed);
    let delivery = delivered(session, invocation.id, hiding, parts, references);
    let context = context_after(session, hiding, parts, root, result is None);
    if delivery.complete {
        Conclusion {
            session: SessionView { label: context, ..delivery.session },
            events: delivery.events.push(
                result_event(
                    session.trace_id,
                    invocation.id,
                    session.label,
                    context,
                    raw.is_error == Some(true),
                ),
            ),
            output: Some(
                result_shown(session, hiding, raw, parts, root, references, context),
            ),
        }
    } else {
        Conclusion { session: delivery.session, events: delivery.events, output: None }
    }
}

proof fn lemma_part_count(
    invocation: InvocationView,
    result: ResultView,
    imposed: Option<ContentLabelView>,
)
    ensures
        invocation.parts(result, imposed).len() == part_count(result),
{
}

/// Presenting values in full changes nothing in a session but its variables.
pub proof fn delivery_keeps_the_label(
    session: SessionView,
    invocation_id: Seq<char>,
    hiding: bool,
    parts: Seq<VariableView>,
    references: Seq<Seq<char>>,
)
    ensures
        ({
            let delivery = delivered(session, invocation_id, hiding, parts, references);
            &&& delivery.session.trace_id == session.trace_id
            &&& delivery.complete ==> delivery.session.label == session.label
        }),
    decreases parts.len(),
{
    if parts.len() > 0 {
        delivery_keeps_the_label(
            session,
            invocation_id,
            hiding,
            parts.drop_last(),
            references.drop_last(),
        );
    }
}

/// Presenting values keeps a session within its bounds.
pub proof fn delivery_keeps_bounds(
    session: SessionView,
    invocation_id: Seq<char>,
    hiding: bool,
    parts: Seq<VariableView>,
    references: Seq<Seq<char>>,
)
    requires
        session.bounded(),
    ensures
        delivered(session, invocation_id, hiding, parts, references).session.bounded(),
    decreases parts.len(),
{
    if parts.len() > 0 {
        delivery_keeps_bounds(
            session,
            invocation_id,
            hiding,
            parts.drop_last(),
            references.drop_last(),
        );
        let before = delivered(
            session,
            invocation_id,
            hiding,
            parts.drop_last(),
            references.drop_last(),
        );
        present_keeps_bounds(before.session, hiding, parts.last(), references.last());
    }
}

proof fn lemma_delivery_stops(
    session: SessionView,
    invocation_id: Seq<char>,
    hiding: bool,
    parts: Seq<VariableView>,
    references: Seq<Seq<char>>,
    i: int,
)
    requires
        0 <= i <= parts.len(),
        parts.len() == references.len(),
        !delivered(session, invocation_id, hiding, parts.take(i), references.take(i)).complete,
    ensures
        delivered(session, invocation_id, hiding, parts, references) == delivered(
            session,
            invocation_id,
            hiding,
            parts.take(i),
            references.take(i),
        ),
    decreases parts.len() - i,
{
    if i == parts.len() {
        assert(parts.take(i) =~= parts);
        assert(references.take(i) =~= references);
    } else {
        assert(parts.take(i + 1).drop_last() =~= parts.take(i));
        assert(references.take(i + 1).drop_last() =~= references.take(i));
        lemma_delivery_stops(session, invocation_id, hiding, parts, references, i + 1);
    }
}

fn read_claim(claim: &Json) -> (label: ContentLabel)
    ensures
        label@ == claimed_label(claim@),
{
    match ContentLabel::from_json(claim) {
        Some(label) => label,
        None => ContentLabel::untrusted(Confidentiality::UserIdentity),
    }
}

fn read_metadata_label(metadata: Option<&Entries>, fallback: &ContentLabel) -> (label: ContentLabel)
    ensures
        label@ == metadata_label(
            match metadata {
                Some(entries) => Some(entries_view(entries@)),
                None => None,
            },
            fallback@,
        ),
{
    match metadata {
        Some(entries) => match lookup_entry(entries, "security_label") {
            Some(claim) => read_claim(claim),
            None => match lookup_entry(entries, "ifc") {
                Some(claim) => read_claim(claim),
                None => fallback.clone(),
            },
        },
        None => fallback.clone(),
    }
}

fn make_failure() -> (result: CallToolResult)
    ensures
        result@ == failure_result(),
{
    let mut content: Vec<ContentItem> = Vec::new();
    content.push(ContentItem::text("FIDES tool execution failed".to_owned()));
    assert(views(content@) =~= seq![text_item("FIDES tool execution failed"@)]);
    CallToolResult::error(content)
}

/// The result that is labeled.
fn settle(result: Result<CallToolResult, SecurityError>) -> (raw: CallToolResult)
    ensures
        raw@ == settled(outcome(result)),
{
    match result {
        Ok(result) => result,
        Err(_) => make_failure(),
    }
}

fn keep_metadata(result: &CallToolResult) -> (metadata: Entries)
    ensures
        entries_view(metadata@) == kept_metadata(result@),
{
    match &result.meta {
        Some(meta) => strip_label_keys(meta),
        None => {
            let metadata: Entries = Vec::new();
            assert(entries_view(metadata@) =~= Seq::empty());
            metadata
        },
    }
}

fn is_failure(result: &CallToolResult) -> (failure: bool)
    ensures
        failure == (result@.is_error == Some(true)),
{
    match result.is_error {
        Some(error) => error,
        None => false,
    }
}

fn find_root(
    invocation: &ToolInvocation,
    result: &CallToolResult,
    imposed: &Option<ContentLabel>,
) -> (root: ContentLabel)
    ensures
        root@ == invocation@.root_label(result@, option_view(*imposed)),
{
    let source = match imposed {
        Some(label) => label.clone(),
        None => invocation.policy.source_label.clone(),
    };
    let fallback = if is_failure(result) {
        source.join(&ContentLabel::untrusted(invocation.label.confidentiality))
    } else {
        source
    };
    if invocation.policy.trust_result_labels && imposed.is_none() {
        read_metadata_label(result.meta.as_ref(), &fallback)
    } else {
        fallback
    }
}

fn find_parts(
    invocation: &ToolInvocation,
    result: &CallToolResult,
    root: &ContentLabel,
    imposed: &Option<ContentLabel>,
) -> (parts: Vec<StoredVariable>)
    requires
        root@ == invocation@.root_label(result@, option_view(*imposed)),
    ensures
        views(parts@) == invocation@.parts(result@, option_view(*imposed)),
{
    let ghost claims = option_view(*imposed);
    let believes = invocation.policy.trust_result_labels && imposed.is_none();
    let mut parts: Vec<StoredVariable> = Vec::new();
    let mut i: usize = 0;
    while i < result.content.len()
        invariant
            i <= result.content.len(),
            parts.len() == i,
            believes == invocation@.believes(claims),
            forall|j: int|
                0 <= j < i ==> (#[trigger] parts@[j])@ == invocation@.item_part(
                    result@.content[j],
                    root@,
                    claims,
                ),
        decreases result.content.len() - i,
    {
        let item = &result.content[i];
        assert(result@.content[i as int] == item@);
        let label = if believes {
            read_metadata_label(item.metadata(), root)
        } else {
            root.clone()
        };
        parts.push(StoredVariable { payload: item.payload(), label });
        i = i + 1;
    }
    let ghost items = Seq::new(
        result@.content.len(),
        |i: int| invocation@.item_part(result@.content[i], root@, claims),
    );
    assert(views(parts@) =~= items);
    if let Some(structured) = &result.structured_content {
        let part = StoredVariable { payload: structured.clone(), label: root.clone() };
        proof {
            lemma_views_push(parts@, part);
        }
        parts.push(part);
    }
    let ghost before = views(parts@);
    let metadata = keep_metadata(result);
    if metadata.len() > 0 {
        let part = StoredVariable { payload: Json::Object(metadata), label: root.clone() };
        proof {
            lemma_views_push(parts@, part);
        }
        parts.push(part);
    }
    assert(views(parts@) =~= invocation@.parts(result@, claims));
    parts
}

/// Presents values in order, each under its reference. None at the first that has no room.
fn deliver(
    session: &mut Session,
    invocation_id: &String,
    hiding: bool,
    parts: &Vec<StoredVariable>,
    references: &Vec<String>,
    events: &mut Vec<Json>,
) -> (shown: Option<Vec<(Json, bool)>>)
    requires
        old(session).wf(),
        parts.len() == references.len(),
    ensures
        final(session).wf(),
        ({
            let delivery = delivered(
                old(session)@,
                invocation_id@,
                hiding,
                views(parts@),
                views(references@),
            );
            &&& final(session)@ == delivery.session
            &&& views(final(events)@) == views(old(events)@) + delivery.events
            &&& shown is Some <==> delivery.complete
            &&& shown matches Some(shown) ==> {
                &&& shown.len() == parts.len()
                &&& forall|i: int|
                    0 <= i < shown.len() ==> {
                        let label = parts@[i]@.label;
                        let hidden = old(session)@.conceals(hiding, label);
                        &&& (#[trigger] shown@[i]).1 == hidden
                        &&& shown@[i].0@ == shown_as(
                            hidden,
                            parts@[i]@.payload,
                            label,
                            references@[i]@,
                        )
                    }
            }
        }),
{
    let ghost start = session@;
    let ghost all = views(parts@);
    let ghost names = views(references@);
    let ghost earlier = views(events@);
    let mut shown: Vec<(Json, bool)> = Vec::new();
    let mut i: usize = 0;
    proof {
        assert(all.take(0) =~= Seq::empty());
        assert(views(events@) =~= earlier + Seq::<JsonView>::empty());
    }
    while i < parts.len()
        invariant
            i <= parts.len(),
            parts.len() == references.len(),
            shown.len() == i,
            session.wf(),
            start == old(session)@,
            earlier == views(old(events)@),
            all == views(parts@),
            names == views(references@),
            ({
                let delivery = delivered(
                    start,
                    invocation_id@,
                    hiding,
                    all.take(i as int),
                    names.take(i as int),
                );
                &&& delivery.complete
                &&& session@ == delivery.session
                &&& views(events@) == earlier + delivery.events
            }),
            forall|j: int|
                0 <= j < i ==> {
                    let label = parts@[j]@.label;
                    let hidden = start.conceals(hiding, label);
                    &&& (#[trigger] shown@[j]).1 == hidden
                    &&& shown@[j].0@ == shown_as(
                        hidden,
                        parts@[j]@.payload,
                        label,
                        references@[j]@,
                    )
                },
        decreases parts.len() - i,
    {
        proof {
            delivery_keeps_the_label(
                start,
                invocation_id@,
                hiding,
                all.take(i as int),
                names.take(i as int),
            );
            assert(all.take(i + 1).drop_last() =~= all.take(i as int));
            assert(names.take(i + 1).drop_last() =~= names.take(i as int));
            assert(all.take(i + 1).last() == parts@[i as int]@);
            assert(names.take(i + 1).last() == references@[i as int]@);
        }
        let part = &parts[i];
        let hidden = session.conceals(hiding, &part.label);
        let digest = json_digest(&part.payload);
        match session.present(hiding, part.payload.clone(), &part.label, references[i].clone()) {
            Some(value) => {
                let event = make_value_event(
                    &session.trace_id,
                    invocation_id,
                    &references[i],
                    &part.label,
                    hidden,
                    digest,
                );
                proof {
                    lemma_views_push(events@, event);
                }
                events.push(event);
                shown.push((value, hidden));
            },
            None => {
                proof {
                    lemma_delivery_stops(start, invocation_id@, hiding, all, names, i + 1);
                }
                return None;
            },
        }
        i = i + 1;
        proof {
            let delivery = delivered(
                start,
                invocation_id@,
                hiding,
                all.take(i as int),
                names.take(i as int),
            );
            assert(views(events@) =~= earlier + delivery.events);
        }
    }
    proof {
        assert(all.take(i as int) =~= all);
        assert(names.take(i as int) =~= names);
    }
    Some(shown)
}

/// The context once all parts were presented.
fn absorb_all(
    context: &ContentLabel,
    parts: &Vec<StoredVariable>,
    shown: &Vec<(Json, bool)>,
    Ghost(session): Ghost<SessionView>,
    Ghost(hiding): Ghost<bool>,
) -> (after: ContentLabel)
    requires
        session.label == context@,
        shown.len() == parts.len(),
        forall|i: int|
            0 <= i < parts.len() ==> (#[trigger] shown@[i]).1 == session.conceals(
                hiding,
                parts@[i]@.label,
            ),
    ensures
        after@ == absorbed_all(session, hiding, views(parts@)),
{
    let ghost all = views(parts@);
    let mut after = context.clone();
    let mut i: usize = 0;
    assert(all.take(0) =~= Seq::empty());
    while i < parts.len()
        invariant
            i <= parts.len(),
            shown.len() == parts.len(),
            all == views(parts@),
            after@ == absorbed_all(session, hiding, all.take(i as int)),
            forall|i: int|
                0 <= i < parts.len() ==> (#[trigger] shown@[i]).1 == session.conceals(
                    hiding,
                    parts@[i]@.label,
                ),
        decreases parts.len() - i,
    {
        proof {
            assert(all.take(i + 1).drop_last() =~= all.take(i as int));
            assert(all.take(i + 1).last() == parts@[i as int]@);
        }
        let label = &parts[i].label;
        after.confidentiality = after.confidentiality.restrict(label.confidentiality);
        if !shown[i].1 {
            after.integrity = after.integrity.restrict(label.integrity);
        }
        i = i + 1;
    }
    assert(all.take(i as int) =~= all);
    after
}

/// The items as they are handed on.
fn show_items(
    items: &Vec<ContentItem>,
    parts: &Vec<StoredVariable>,
    shown: &Vec<(Json, bool)>,
    references: &Vec<String>,
) -> (content: Vec<ContentItem>)
    requires
        items.len() <= parts.len(),
        parts.len() == shown.len(),
        parts.len() == references.len(),
        forall|i: int|
            0 <= i < parts.len() && (#[trigger] shown@[i]).1 ==> shown@[i].0@ == placeholder(
                references@[i]@,
                parts@[i]@.label,
            ),
    ensures
        views(content@) == Seq::new(
            items.len() as nat,
            |i: int|
                item_shown(items@[i]@, parts@[i]@.label, shown@[i].1, references@[i]@),
        ),
{
    let mut content: Vec<ContentItem> = Vec::new();
    let mut i: usize = 0;
    while i < items.len()
        invariant
            i <= items.len() <= parts.len(),
            parts.len() == shown.len(),
            parts.len() == references.len(),
            content.len() == i,
            forall|i: int|
                0 <= i < parts.len() && (#[trigger] shown@[i]).1 ==> shown@[i].0@ == placeholder(
                    references@[i]@,
                    parts@[i]@.label,
                ),
            forall|j: int|
                0 <= j < i ==> (#[trigger] content@[j])@ == item_shown(
                    items@[j]@,
                    parts@[j]@.label,
                    shown@[j].1,
                    references@[j]@,
                ),
        decreases items.len() - i,
    {
        let item = if shown[i].1 {
            ContentItem::text(shown[i].0.text())
        } else {
            items[i].labeled(parts[i].label.to_json())
        };
        content.push(item);
        i = i + 1;
    }
    assert(views(content@) =~= Seq::new(
        items.len() as nat,
        |i: int| item_shown(items@[i]@, parts@[i]@.label, shown@[i].1, references@[i]@),
    ));
    content
}

/// Whether a text is a reference to a hidden variable as the middleware makes them.
pub open spec fn is_reference(text: Seq<char>) -> bool {
    exists|identifier: Seq<char>| #[trigger]
        is_identifier(identifier) && text == "var_"@ + identifier
}

/// Whether there is one reference for each value of the result.
pub open spec fn are_references_for(
    references: Seq<Seq<char>>,
    result: Option<ResultView>,
) -> bool {
    &&& references.len() == part_count(settled(result))
    &&& forall|i: int| 0 <= i < references.len() ==> is_reference(#[trigger] references[i])
}

fn push_reference(references: &mut Vec<String>)
    requires
        forall|i: int| 0 <= i < old(references)@.len() ==> is_reference(
            (#[trigger] old(references)@[i])@,
        ),
    ensures
        final(references).len() == old(references).len() + 1,
        forall|i: int| 0 <= i < final(references)@.len() ==> is_reference(
            (#[trigger] final(references)@[i])@,
        ),
{
    let identifier = fresh_identifier();
    let reference = concat("var_", identifier.as_str());
    assert(is_identifier(identifier@) && reference@ == "var_"@ + identifier@);
    references.push(reference);
}

/// Draws a reference for each value of a result.
pub(crate) fn draw_references(result: &Result<CallToolResult, SecurityError>) -> (references: Vec<
    String,
>)
    ensures
        are_references_for(views(references@), outcome(*result)),
{
    let mut references: Vec<String> = Vec::new();
    match result {
        Ok(result) => {
            let mut i: usize = 0;
            while i < result.content.len()
                invariant
                    i <= result.content.len(),
                    references.len() == i,
                    forall|j: int| 0 <= j < references@.len() ==> is_reference(
                        (#[trigger] references@[j])@,
                    ),
                decreases result.content.len() - i,
            {
                push_reference(&mut references);
                i = i + 1;
            }
            if result.structured_content.is_some() {
                push_reference(&mut references);
            }
            if keep_metadata(result).len() > 0 {
                push_reference(&mut references);
            }
        },
        Err(_) => {
            push_reference(&mut references);
        },
    }
    assert forall|i: int| 0 <= i < views(references@).len() implies is_reference(
        #[trigger] views(references@)[i],
    ) by {
        assert(is_reference(references@[i]@));
    }
    references
}

/// Labels a result, presents its values and brings the context up to date. The events are put
/// behind those that are there.
pub(crate) fn conclude(
    session: &mut Session,
    invocation: &ToolInvocation,
    hiding: bool,
    result: Result<CallToolResult, SecurityError>,
    imposed: Option<ContentLabel>,
    references: &Vec<String>,
    events: &mut Vec<Json>,
) -> (output: Option<CallToolResult>)
    requires
        old(session).wf(),
        references@.len() == part_count(settled(outcome(result))),
    ensures
        final(session).wf(),
        ({
            let conclusion = concluded(
                old(session)@,
                invocation@,
                hiding,
                outcome(result),
                option_view(imposed),
                views(references@),
            );
            &&& final(session)@ == conclusion.session
            &&& views(final(events)@) == views(old(events)@) + conclusion.events
            &&& option_view(output) == conclusion.output
        }),
{
    let ghost start = session@;
    let ghost earlier = views(events@);
    let ghost names = views(references@);
    let ghost claims = option_view(imposed);
    let failed = result.is_err();
    let raw = settle(result);
    let root = find_root(invocation, &raw, &imposed);
    let parts = find_parts(invocation, &raw, &root, &imposed);
    proof {
        lemma_part_count(invocation@, raw@, claims);
        delivery_keeps_the_label(start, invocation@.id, hiding, views(parts@), names);
        delivery_keeps_bounds(start, invocation@.id, hiding, views(parts@), names);
    }
    let before = session.label.clone();
    let shown = match deliver(session, &invocation.id, hiding, &parts, references, events) {
        Some(shown) => shown,
        None => return None,
    };
    let mut context = if parts.len() == 0 {
        let mut context = before.clone();
        context.confidentiality = context.confidentiality.restrict(root.confidentiality);
        context
    } else {
        absorb_all(&before, &parts, &shown, Ghost(start), Ghost(hiding))
    };
    if failed {
        context = context.join(&root);
    }
    let error = is_failure(&raw);
    let event = make_result_event(&session.trace_id, &invocation.id, &before, &context, error);
    proof {
        lemma_views_push(events@, event);
    }
    events.push(event);
    let content = show_items(&raw.content, &parts, &shown, references);
    let structured_content = match &raw.structured_content {
        Some(_) => Some(shown[raw.content.len()].0.clone()),
        None => None,
    };
    let hides_root = session.conceals(hiding, &root);
    let mut meta: Entries = if hides_root {
        Vec::new()
    } else {
        keep_metadata(&raw)
    };
    let ghost kept = entries_view(meta@);
    meta.push(entry("goose.fides.context", context.to_json()));
    assert(entries_view(meta@) =~= kept.push(("goose.fides.context"@, context@.json())));
    session.label = context;
    let output = CallToolResult {
        result_type: raw.result_type,
        content,
        structured_content,
        is_error: raw.is_error,
        meta: Some(meta),
    };
    proof {
        let conclusion = concluded(start, invocation@, hiding, outcome(result), claims, names);
        let expected = result_shown(start, hiding, raw@, views(parts@), root@, names, context@);
        assert(kept =~= if start.conceals(hiding, root@) {
            Seq::empty()
        } else {
            kept_metadata(raw@)
        });
        assert(output@.content =~= expected.content);
        if let Some(payload) = raw@.structured_content {
            let count = raw@.content.len() as int;
            assert(views(parts@)[count] == (VariableView { payload, label: root@ }));
            assert(shown@[count].0@ == shown_as(
                start.conceals(hiding, root@),
                payload,
                root@,
                names[count],
            ));
        }
        assert(output@ =~= expected);
        assert(views(events@) =~= earlier + conclusion.events);
        assert(session@ =~= conclusion.session);
    }
    Some(output)
}

} // verus!
