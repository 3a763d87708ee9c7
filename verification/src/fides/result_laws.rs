//! What the labeling of a result comes to: which label each value gets, what is shown and what is
//! hidden, what the session takes on, what it keeps, and what is logged.
use crate::digest::json_digest_of;
use crate::fides::call_laws::{has_entries, written_axes};
use crate::fides::content_label::{label_of_json, Confidentiality, ContentLabelView, Integrity};
use crate::fides::delivery::{
    absorbed_all, delivered, delivery_keeps_the_label, kept_metadata, part_count, settled,
};
use crate::fides::event::value_event;
use crate::fides::invocation::InvocationView;
use crate::fides::label_laws::{
    labels_survive_the_wire, later_metadata_wins, written_confidentiality, written_integrity,
};
use crate::fides::laws::{
    hidden_values_are_kept, item_claims_are_replaced, result_claims_are_replaced,
    results_add_to_the_context,
};
use crate::fides::message::{label_keys, ResultView};
use crate::fides::policy::ConfigView;
use crate::fides::references::INSPECT_VARIABLE;
use crate::fides::session::{placeholder, SessionView, VariableView};
use crate::fides::tracker::TrackerView;
use crate::json::{json_text, lemma_lookup_without, lookup, EntriesView, JsonView};
use vstd::prelude::*;
use vstd::utf8::*;

verus! {

/// The metadata that some fields hold under `_meta`, where it is an object.
pub open spec fn metadata_in(fields: EntriesView) -> Option<EntriesView> {
    match lookup(fields, "_meta"@) {
        Some(JsonView::Object(metadata)) => Some(metadata),
        _ => None,
    }
}

/// Whether metadata claims a label: under `security_label`, or without one under `ifc`.
pub open spec fn claims(metadata: Option<EntriesView>, claim: JsonView) -> bool {
    metadata matches Some(entries) && {
        ||| lookup(entries, "security_label"@) == Some(claim)
        ||| lookup(entries, "security_label"@) is None && lookup(entries, "ifc"@) == Some(claim)
    }
}

/// Whether metadata claims no label at all.
pub open spec fn claims_nothing(metadata: Option<EntriesView>) -> bool {
    metadata matches Some(entries) ==> lookup(entries, "security_label"@) is None && lookup(
        entries,
        "ifc"@,
    ) is None
}

/// Whether a value with the given label is hidden when it is presented: hiding is on, the value
/// is untrusted, the session is still trusted, and it is no inspection that shows the value.
pub open spec fn goes_hidden(
    tracker: TrackerView,
    invocation: InvocationView,
    label: ContentLabelView,
) -> bool {
    &&& tracker.config.auto_hide_untrusted
    &&& invocation.name != INSPECT_VARIABLE@
    &&& label.integrity == Integrity::Untrusted
    &&& tracker.sessions[invocation.session_id].label.integrity == Integrity::Trusted
}

/// A result is made of its items, each with its text or else all of it; of its structured
/// content, where there is any; and of its metadata, where there is any but claims of labels.
#[verifier::spinoff_prover]
#[verifier::rlimit(60)]
pub proof fn results_are_made_of_their_values(
    invocation: InvocationView,
    result: ResultView,
    imposed: Option<ContentLabelView>,
    i: int,
    key: Seq<char>,
)
    ensures
        ({
            let parts = invocation.parts(result, imposed);
            let count = result.content.len();
            let more: nat = if result.structured_content is Some {
                1
            } else {
                0
            };
            let described = result.meta is Some && exists|name: Seq<char>|
                name != "security_label"@ && name != "ifc"@ && name != "goose.fides.label"@ && name
                    != "goose.fides.context"@ && #[trigger] lookup(result.meta->Some_0, name)
                    is Some;
            &&& parts.len() == count + more + if described {
                1nat
            } else {
                0nat
            }
            &&& 0 <= i < count ==> parts[i].payload == (match (
                lookup(result.content[i], "type"@),
                lookup(result.content[i], "text"@),
            ) {
                (Some(JsonView::Text(kind)), Some(JsonView::Text(text))) => if kind == "text"@ {
                    JsonView::Text(text)
                } else {
                    JsonView::Object(result.content[i])
                },
                _ => JsonView::Object(result.content[i]),
            })
            &&& result.structured_content matches Some(payload) ==> parts[count as int].payload
                == payload
            &&& described ==> {
                &&& parts.last().payload is Object
                &&& lookup(parts.last().payload->Object_0, key) == (if key == "security_label"@
                    || key == "ifc"@ || key == "goose.fides.label"@ || key
                    == "goose.fides.context"@ {
                    None
                } else {
                    lookup(result.meta->Some_0, key)
                })
            }
            &&& forall|k: int|
                count <= k < parts.len() ==> (#[trigger] parts[k]).label == invocation.root_label(
                    result,
                    imposed,
                )
        }),
{
    let kept = kept_metadata(result);
    let keys = label_keys();
    assert(keys[0] == "security_label"@);
    assert(keys[1] == "ifc"@);
    assert(keys[2] == "goose.fides.label"@);
    assert(keys[3] == "goose.fides.context"@);
    assert forall|name: Seq<char>|
        keys.contains(name) <==> name == "security_label"@ || name == "ifc"@ || name
            == "goose.fides.label"@ || name == "goose.fides.context"@ by {
        if name == "security_label"@ {
            assert(keys[0] == name);
        }
        if name == "ifc"@ {
            assert(keys[1] == name);
        }
        if name == "goose.fides.label"@ {
            assert(keys[2] == name);
        }
        if name == "goose.fides.context"@ {
            assert(keys[3] == name);
        }
    }
    if let Some(meta) = result.meta {
        lemma_lookup_without(meta, keys, key);
        if kept.len() > 0 {
            let name = kept[0].0;
            lemma_lookup_without(meta, keys, name);
            assert(lookup(kept, name) is Some);
            assert(lookup(meta, name) is Some);
        }
        if exists|name: Seq<char>|
            name != "security_label"@ && name != "ifc"@ && name != "goose.fides.label"@ && name
                != "goose.fides.context"@ && #[trigger] lookup(meta, name) is Some {
            let name = choose|name: Seq<char>|
                name != "security_label"@ && name != "ifc"@ && name != "goose.fides.label"@ && name
                    != "goose.fides.context"@ && #[trigger] lookup(meta, name) is Some;
            lemma_lookup_without(meta, keys, name);
            assert(lookup(kept, name) is Some);
        }
    }
}

/// Where the tool's labels are believed, a claim that can be read is the label of the value that
/// makes it, exactly as written; one that cannot be read makes it untrusted and a user's
/// identity; a value that claims nothing has the label of the result. The result's own claim is
/// read alike, and one that claims nothing has the label that it falls back to.
pub proof fn believed_claims_are_the_labels(
    invocation: InvocationView,
    result: ResultView,
    i: int,
    claim: JsonView,
)
    requires
        invocation.policy.trust_result_labels,
    ensures
        ({
            let parts = invocation.parts(result, None);
            let root = invocation.root_label(result, None);
            let read = match label_of_json(claim) {
                Some(label) => label,
                None => ContentLabelView {
                    integrity: Integrity::Untrusted,
                    confidentiality: Confidentiality::UserIdentity,
                    metadata: Seq::empty(),
                },
            };
            &&& 0 <= i < result.content.len() && claims(metadata_in(result.content[i]), claim)
                ==> parts[i].label == read
            &&& 0 <= i < result.content.len() && claims_nothing(metadata_in(result.content[i]))
                ==> parts[i].label == root
            &&& claims(result.meta, claim) ==> root == read
            &&& claims_nothing(result.meta) ==> root == invocation.fallback_label(result, None)
        }),
{
}

/// Where the tool's labels are not believed, or a label is imposed, each value has the label that
/// the result falls back to, whatever it claims.
pub proof fn other_claims_are_not_read(
    invocation: InvocationView,
    result: ResultView,
    imposed: Option<ContentLabelView>,
    i: int,
)
    requires
        !invocation.policy.trust_result_labels || imposed is Some,
    ensures
        invocation.root_label(result, imposed) == invocation.fallback_label(result, imposed),
        0 <= i < invocation.parts(result, imposed).len() ==> invocation.parts(
            result,
            imposed,
        )[i].label == invocation.fallback_label(result, imposed),
{
}

/// A result that is no error falls back to the label that is imposed, or else to that of the
/// tool. An error falls back to a label that is untrusted, and just as confidential as that label
/// and the call that was made are together. The metadata is that of the source either way.
pub proof fn results_fall_back_to_the_source(
    invocation: InvocationView,
    result: ResultView,
    imposed: Option<ContentLabelView>,
    key: Seq<char>,
)
    ensures
        ({
            let source = if imposed is Some {
                imposed->Some_0
            } else {
                invocation.policy.source_label
            };
            let label = invocation.fallback_label(result, imposed);
            &&& lookup(label.metadata, key) == lookup(source.metadata, key)
            &&& result.is_error != Some(true) ==> label == source
            &&& result.is_error == Some(true) ==> {
                &&& label.integrity == Integrity::Untrusted
                &&& label.confidentiality.rank() >= source.confidentiality.rank()
                &&& label.confidentiality.rank() >= invocation.label.confidentiality.rank()
                &&& label.confidentiality == source.confidentiality || label.confidentiality
                    == invocation.label.confidentiality
            }
        }),
{
    let source = if imposed is Some {
        imposed->Some_0
    } else {
        invocation.policy.source_label
    };
    later_metadata_wins(
        source,
        ContentLabelView::untrusted(invocation.label.confidentiality),
        key,
    );
}

/// For a tool whose labels are believed, a well-formed claim is taken exactly as written: the
/// value has the integrity, the confidentiality and the metadata that it claims, and once the
/// result is handed on the session is at least as confidential. A value that is shown carries the
/// label, and adds all of it to the session; one that is hidden is kept with it.
pub proof fn claims_are_taken_as_written(
    tracker: TrackerView,
    invocation: InvocationView,
    result: ResultView,
    references: Seq<Seq<char>>,
    i: int,
    label: ContentLabelView,
)
    requires
        tracker.sessions.contains_key(invocation.session_id),
        !invocation.blocked,
        invocation.policy.trust_result_labels,
        0 <= i < result.content.len(),
        claims(metadata_in(result.content[i]), label.json()),
        references.len() == invocation.parts(result, None).len(),
        references.no_duplicates(),
    ensures
        ({
            let (after, output) = tracker.finish(invocation, Some(result), None, references);
            let session = after.sessions[invocation.session_id];
            &&& invocation.parts(result, None)[i].label == label
            &&& output matches Some(shown) ==> {
                &&& session.label.confidentiality.rank() >= label.confidentiality.rank()
                &&& !goes_hidden(tracker, invocation, label) ==> {
                    &&& session.label.covers(label)
                    &&& metadata_in(shown.content[i]) matches Some(metadata) && lookup(
                        metadata,
                        "goose.fides.label"@,
                    ) == Some(label.json())
                }
                &&& goes_hidden(tracker, invocation, label) ==> {
                    &&& session.variables.contains_key(references[i])
                    &&& session.variables[references[i]].label == label
                }
            }
        }),
{
    labels_survive_the_wire(label);
    believed_claims_are_the_labels(invocation, result, i, label.json());
    let session = tracker.sessions[invocation.session_id];
    let hiding = tracker.hides(invocation);
    results_add_to_the_context(session, invocation, hiding, Some(result), None, references, i);
    let (after, output) = tracker.finish(invocation, Some(result), None, references);
    if output is Some {
        item_claims_are_replaced(
            result.content[i],
            label,
            references[i],
            "goose.fides.label"@,
        );
        hidden_values_are_kept(
            session,
            invocation,
            hiding,
            Some(result),
            None,
            references,
            i,
            Seq::empty(),
        );
    }
}

/// A claim of the result as a whole is taken as written too: every value that claims nothing of
/// its own, the structured content and the metadata have the label that it says, and the session
/// is at least as confidential once there is such a value.
pub proof fn claims_of_the_result_are_taken_as_written(
    tracker: TrackerView,
    invocation: InvocationView,
    result: ResultView,
    references: Seq<Seq<char>>,
    i: int,
    label: ContentLabelView,
)
    requires
        tracker.sessions.contains_key(invocation.session_id),
        !invocation.blocked,
        invocation.policy.trust_result_labels,
        claims(result.meta, label.json()),
        0 <= i < invocation.parts(result, None).len(),
        i < result.content.len() ==> claims_nothing(metadata_in(result.content[i])),
    ensures
        ({
            let (after, output) = tracker.finish(invocation, Some(result), None, references);
            let session = after.sessions[invocation.session_id];
            &&& invocation.parts(result, None)[i].label == label
            &&& output is Some ==> {
                &&& session.label.confidentiality.rank() >= label.confidentiality.rank()
                &&& !goes_hidden(tracker, invocation, label) ==> session.label.covers(label)
            }
        }),
{
    labels_survive_the_wire(label);
    believed_claims_are_the_labels(invocation, result, i, label.json());
    results_are_made_of_their_values(invocation, result, None, i, Seq::empty());
    results_add_to_the_context(
        tracker.sessions[invocation.session_id],
        invocation,
        tracker.hides(invocation),
        Some(result),
        None,
        references,
        i,
    );
}

proof fn lemma_absorbed_exactly(session: SessionView, hiding: bool, parts: Seq<VariableView>)
    ensures
        ({
            let after = absorbed_all(session, hiding, parts);
            &&& after.metadata == session.label.metadata
            &&& after.integrity == Integrity::Trusted <==> session.label.integrity
                == Integrity::Trusted && (hiding || forall|i: int|
                0 <= i < parts.len() ==> (#[trigger] parts[i]).label.integrity
                    == Integrity::Trusted)
            &&& after.confidentiality.rank() >= session.label.confidentiality.rank()
            &&& forall|i: int|
                0 <= i < parts.len() ==> after.confidentiality.rank() >= (
                #[trigger] parts[i]).label.confidentiality.rank()
            &&& after.confidentiality == session.label.confidentiality || exists|i: int|
                0 <= i < parts.len() && after.confidentiality == (
                #[trigger] parts[i]).label.confidentiality
        }),
    decreases parts.len(),
{
    if parts.len() > 0 {
        let rest = parts.drop_last();
        lemma_absorbed_exactly(session, hiding, rest);
        assert(forall|i: int| 0 <= i < rest.len() ==> #[trigger] parts[i] == rest[i]);
        assert(forall|i: int| 0 <= i < rest.len() ==> parts[i] == #[trigger] rest[i]);
        assert(parts[parts.len() - 1] == parts.last());
    }
}

/// What a result that is handed on makes of its session. With hiding on, its integrity stays as
/// it was: what is untrusted is hidden from a trusted session. Without, it stays trusted only
/// where every value is. It becomes just as confidential as the most confidential of the values,
/// hidden or not, or of what it was before; a result without any value counts as its root label.
/// Its metadata stays.
pub proof fn sessions_take_on_what_results_hold(
    tracker: TrackerView,
    invocation: InvocationView,
    result: ResultView,
    imposed: Option<ContentLabelView>,
    references: Seq<Seq<char>>,
)
    requires
        tracker.sessions.contains_key(invocation.session_id),
        !invocation.blocked,
        tracker.finish(invocation, Some(result), imposed, references).1 is Some,
    ensures
        ({
            let before = tracker.sessions[invocation.session_id].label;
            let after = tracker.finish(
                invocation,
                Some(result),
                imposed,
                references,
            ).0.sessions[invocation.session_id].label;
            let parts = invocation.parts(result, imposed);
            let root = invocation.root_label(result, imposed);
            &&& tracker.config.auto_hide_untrusted && invocation.name != INSPECT_VARIABLE@
                ==> after.integrity == before.integrity
            &&& !tracker.config.auto_hide_untrusted || invocation.name == INSPECT_VARIABLE@ ==> (
            after.integrity == Integrity::Trusted <==> before.integrity == Integrity::Trusted
                && forall|i: int|
                0 <= i < parts.len() ==> (#[trigger] parts[i]).label.integrity
                    == Integrity::Trusted)
            &&& after.confidentiality.rank() >= before.confidentiality.rank()
            &&& forall|i: int|
                0 <= i < parts.len() ==> after.confidentiality.rank() >= (
                #[trigger] parts[i]).label.confidentiality.rank()
            &&& parts.len() > 0 ==> after.confidentiality == before.confidentiality || exists|
                i: int,
            |
                0 <= i < parts.len() && after.confidentiality == (
                #[trigger] parts[i]).label.confidentiality
            &&& parts.len() == 0 ==> {
                &&& after.confidentiality.rank() >= root.confidentiality.rank()
                &&& after.confidentiality == before.confidentiality || after.confidentiality
                    == root.confidentiality
            }
            &&& after.metadata == before.metadata
        }),
{
    lemma_absorbed_exactly(
        tracker.sessions[invocation.session_id],
        tracker.hides(invocation),
        invocation.parts(result, imposed),
    );
}

/// A call that could not be carried out leaves its session untrusted, and just as confidential as
/// what it was, as the source and as the call together. The metadata of the source is merged into
/// that of the session.
pub proof fn failed_calls_taint_their_session(
    tracker: TrackerView,
    invocation: InvocationView,
    imposed: Option<ContentLabelView>,
    references: Seq<Seq<char>>,
    key: Seq<char>,
)
    requires
        tracker.sessions.contains_key(invocation.session_id),
        !invocation.blocked,
        tracker.finish(invocation, None, imposed, references).1 is Some,
    ensures
        ({
            let before = tracker.sessions[invocation.session_id].label;
            let (tracked_after, output) = tracker.finish(invocation, None, imposed, references);
            let after = tracked_after.sessions[invocation.session_id].label;
            let source = if imposed is Some {
                imposed->Some_0
            } else {
                invocation.policy.source_label
            };
            &&& after.integrity == Integrity::Untrusted
            &&& after.confidentiality.rank() >= before.confidentiality.rank()
            &&& after.confidentiality.rank() >= source.confidentiality.rank()
            &&& after.confidentiality.rank() >= invocation.label.confidentiality.rank()
            &&& after.confidentiality == before.confidentiality || after.confidentiality
                == source.confidentiality || after.confidentiality
                == invocation.label.confidentiality
            &&& lookup(after.metadata, key) == (if lookup(source.metadata, key) is Some {
                lookup(source.metadata, key)
            } else {
                lookup(before.metadata, key)
            })
            &&& output->Some_0.is_error == Some(true)
        }),
{
    let raw = settled(None);
    results_fall_back_to_the_source(invocation, raw, imposed, key);
    later_metadata_wins(
        tracker.sessions[invocation.session_id].label,
        invocation.root_label(raw, imposed),
        key,
    );
    lemma_absorbed_exactly(
        tracker.sessions[invocation.session_id],
        tracker.hides(invocation),
        invocation.parts(raw, imposed),
    );
    let item = raw.content[0];
    lemma_item_names();
    reveal_with_fuel(lookup, 3);
    assert(item.drop_first()[0] == item[1]);
    assert(lookup(item, "_meta"@) is None);
    assert(invocation.parts(raw, imposed).len() == 1);
}

proof fn lemma_item_names()
    ensures
        "type"@ != "_meta"@,
        "text"@ != "_meta"@,
        "type"@ != "text"@,
{
    reveal_strlit("type");
    reveal_strlit("text");
    reveal_strlit("_meta");
    assert("type"@.len() == 4);
    assert("text"@.len() == 4);
    assert("_meta"@.len() == 5);
    assert("type"@[1] == 'y');
    assert("text"@[1] == 'e');
}

/// A call that could not be carried out shows and hides what an error with a fixed text does,
/// and nothing of why it failed. It is logged as an error does, with the label that the session
/// has by then.
#[verifier::spinoff_prover]
#[verifier::rlimit(60)]
pub proof fn failures_are_shown_as_a_fixed_text(
    tracker: TrackerView,
    invocation: InvocationView,
    imposed: Option<ContentLabelView>,
    references: Seq<Seq<char>>,
)
    ensures
        ({
            let error = ResultView {
                result_type: Some("complete"@),
                content: seq![
                    seq![
                        ("text"@, JsonView::Text("FIDES tool execution failed"@)),
                        ("type"@, JsonView::Text("text"@)),
                    ],
                ],
                structured_content: None,
                is_error: Some(true),
                meta: None,
            };
            let failed = tracker.finish(invocation, None, imposed, references);
            let reported = tracker.finish(invocation, Some(error), imposed, references);
            let id = invocation.session_id;
            &&& failed.1 is Some <==> reported.1 is Some
            &&& failed.1 is Some ==> {
                &&& failed.1->Some_0.content == reported.1->Some_0.content
                &&& failed.1->Some_0.is_error == reported.1->Some_0.is_error
                &&& failed.1->Some_0.structured_content is None
                &&& failed.1->Some_0.result_type == reported.1->Some_0.result_type
            }
            &&& tracker.sessions.contains_key(id) ==> {
                &&& failed.0.sessions[id].variables == reported.0.sessions[id].variables
                &&& failed.0.sessions[id].stored_bytes == reported.0.sessions[id].stored_bytes
                &&& failed.0.sessions[id].label.covers(reported.0.sessions[id].label)
            }
            &&& failed.0.pending.len() == reported.0.pending.len()
            &&& failed.1 is Some && !tracker.log_failed ==> {
                &&& failed.0.pending.drop_last() == reported.0.pending.drop_last()
                &&& has_entries(
                    failed.0.pending.last(),
                    seq![
                        ("event"@, JsonView::Text("tool_result"@)),
                        ("version"@, JsonView::Number("1"@)),
                        ("session"@, JsonView::Text(tracker.sessions[id].trace_id)),
                        ("invocation"@, JsonView::Text(invocation.id)),
                        ("context_before"@, written_axes(tracker.sessions[id].label)),
                        ("context_after"@, written_axes(failed.0.sessions[id].label)),
                        ("error"@, JsonView::Bool(true)),
                    ],
                )
            }
        }),
{
    let failed = tracker.finish(invocation, None, imposed, references);
    if failed.1 is Some && !tracker.log_failed {
        let before = tracker.sessions[invocation.session_id].label;
        let label = failed.0.sessions[invocation.session_id].label;
        assert(before.axes_entries() =~= seq![
            ("confidentiality"@, written_confidentiality(before.confidentiality)),
            ("integrity"@, written_integrity(before.integrity)),
        ]);
        assert(label.axes_entries() =~= seq![
            ("confidentiality"@, written_confidentiality(label.confidentiality)),
            ("integrity"@, written_integrity(label.integrity)),
        ]);
        let fields = failed.0.pending.last()->Object_0;
        assert(fields.contains(fields[0]));
        assert(fields.contains(fields[1]));
        assert(fields.contains(fields[2]));
        assert(fields.contains(fields[3]));
        assert(fields.contains(fields[4]));
        assert(fields.contains(fields[5]));
        assert(fields.contains(fields[6]));
    }
}

/// What stands for a hidden value: its reference and the axes of its label.
pub open spec fn stand_in(reference: Seq<char>, label: ContentLabelView) -> JsonView {
    JsonView::Object(
        seq![
            ("security_label"@, written_axes(label)),
            ("type"@, JsonView::Text("variable_reference"@)),
            ("variable_id"@, JsonView::Text(reference)),
        ],
    )
}

proof fn lemma_stand_in(reference: Seq<char>, label: ContentLabelView)
    ensures
        placeholder(reference, label) == stand_in(reference, label),
{
    assert(label.axes_entries() =~= seq![
        ("confidentiality"@, written_confidentiality(label.confidentiality)),
        ("integrity"@, written_integrity(label.integrity)),
    ]);
}

/// A result that is handed on has as many items as came, each in its place. One that is hidden is
/// a text that stands for its reference. One that is shown keeps every field but its metadata,
/// and of its metadata all but claims of labels, and carries its own label. The same of the
/// structured content; what is hidden is not shown anywhere. The kind of the result and whether
/// it is an error stay.
#[verifier::spinoff_prover]
#[verifier::rlimit(60)]
pub proof fn results_are_handed_on_in_place(
    tracker: TrackerView,
    invocation: InvocationView,
    result: ResultView,
    imposed: Option<ContentLabelView>,
    references: Seq<Seq<char>>,
    i: int,
    key: Seq<char>,
)
    requires
        tracker.sessions.contains_key(invocation.session_id),
        !invocation.blocked,
        tracker.finish(invocation, Some(result), imposed, references).1 is Some,
    ensures
        ({
            let output = tracker.finish(invocation, Some(result), imposed, references).1->Some_0;
            let parts = invocation.parts(result, imposed);
            let root = invocation.root_label(result, imposed);
            let count = result.content.len() as int;
            let claim = key == "security_label"@ || key == "ifc"@ || key == "goose.fides.label"@
                || key == "goose.fides.context"@;
            &&& output.content.len() == count
            &&& output.result_type == result.result_type
            &&& output.is_error == result.is_error
            &&& 0 <= i < count && goes_hidden(tracker, invocation, parts[i].label)
                ==> output.content[i] == seq![
                ("text"@, JsonView::Text(json_text(stand_in(references[i], parts[i].label)))),
                ("type"@, JsonView::Text("text"@)),
            ]
            &&& 0 <= i < count && !goes_hidden(tracker, invocation, parts[i].label) ==> {
                &&& key != "_meta"@ ==> lookup(output.content[i], key) == lookup(
                    result.content[i],
                    key,
                )
                &&& metadata_in(output.content[i]) matches Some(metadata) && lookup(metadata, key)
                    == (if key == "goose.fides.label"@ {
                    Some(parts[i].label.json())
                } else if claim || metadata_in(result.content[i]) is None {
                    None
                } else {
                    lookup(metadata_in(result.content[i])->Some_0, key)
                })
            }
            &&& output.structured_content == (match result.structured_content {
                Some(payload) => Some(
                    if goes_hidden(tracker, invocation, root) {
                        stand_in(references[count], root)
                    } else {
                        payload
                    },
                ),
                None => None,
            })
        }),
{
    let session = tracker.sessions[invocation.session_id];
    let parts = invocation.parts(result, imposed);
    let root = invocation.root_label(result, imposed);
    let keys = label_keys();
    assert(keys[0] == "security_label"@);
    assert(keys[1] == "ifc"@);
    assert(keys[2] == "goose.fides.label"@);
    assert(keys[3] == "goose.fides.context"@);
    lemma_stand_in(references[result.content.len() as int], root);
    if 0 <= i < result.content.len() {
        lemma_stand_in(references[i], parts[i].label);
        item_claims_are_replaced(result.content[i], parts[i].label, references[i], key);
    }
}

/// The metadata of a result that is handed on holds the label of the session after it, no other
/// claim, and what else it held, unless that is hidden.
pub proof fn results_carry_the_label_of_the_session(
    tracker: TrackerView,
    invocation: InvocationView,
    result: ResultView,
    imposed: Option<ContentLabelView>,
    references: Seq<Seq<char>>,
    key: Seq<char>,
)
    requires
        tracker.sessions.contains_key(invocation.session_id),
        !invocation.blocked,
        tracker.finish(invocation, Some(result), imposed, references).1 is Some,
    ensures
        ({
            let (after, output) = tracker.finish(invocation, Some(result), imposed, references);
            let root = invocation.root_label(result, imposed);
            let claim = key == "security_label"@ || key == "ifc"@ || key == "goose.fides.label"@
                || key == "goose.fides.context"@;
            output->Some_0.meta matches Some(metadata) && lookup(metadata, key) == (if key
                == "goose.fides.context"@ {
                Some(after.sessions[invocation.session_id].label.json())
            } else if claim || goes_hidden(tracker, invocation, root) || result.meta is None {
                None
            } else {
                lookup(result.meta->Some_0, key)
            })
        }),
{
    let session = tracker.sessions[invocation.session_id];
    let (after, output) = tracker.finish(invocation, Some(result), imposed, references);
    let keys = label_keys();
    assert(keys[0] == "security_label"@);
    assert(keys[1] == "ifc"@);
    assert(keys[2] == "goose.fides.label"@);
    assert(keys[3] == "goose.fides.context"@);
    result_claims_are_replaced(
        session,
        tracker.hides(invocation),
        result,
        invocation.parts(result, imposed),
        invocation.root_label(result, imposed),
        references,
        after.sessions[invocation.session_id].label,
        key,
    );
}

proof fn lemma_delivered_variables(
    session: SessionView,
    invocation_id: Seq<char>,
    hiding: bool,
    parts: Seq<VariableView>,
    references: Seq<Seq<char>>,
    reference: Seq<char>,
)
    requires
        references.len() == parts.len(),
        delivered(session, invocation_id, hiding, parts, references).complete,
    ensures
        delivered(
            session,
            invocation_id,
            hiding,
            parts,
            references,
        ).session.variables.contains_key(reference) <==> session.variables.contains_key(reference)
            || exists|i: int|
            0 <= i < parts.len() && session.conceals(hiding, (#[trigger] parts[i]).label)
                && references[i] == reference,
    decreases parts.len(),
{
    if parts.len() > 0 {
        let rest = parts.drop_last();
        let names = references.drop_last();
        lemma_delivered_variables(session, invocation_id, hiding, rest, names, reference);
        delivery_keeps_the_label(session, invocation_id, hiding, rest, names);
        assert(forall|i: int| 0 <= i < rest.len() ==> #[trigger] parts[i] == rest[i]);
        assert(forall|i: int| 0 <= i < rest.len() ==> parts[i] == #[trigger] rest[i]);
        assert(forall|i: int| 0 <= i < rest.len() ==> references[i] == names[i]);
        assert(parts[parts.len() - 1] == parts.last());
    }
}

/// After a result that is handed on, a session holds what it held and the values that were
/// hidden, each as it came and with its label, under the references that stand for them: no other
/// value is kept.
pub proof fn sessions_keep_exactly_what_is_hidden(
    tracker: TrackerView,
    invocation: InvocationView,
    result: ResultView,
    imposed: Option<ContentLabelView>,
    references: Seq<Seq<char>>,
    i: int,
    reference: Seq<char>,
)
    requires
        tracker.sessions.contains_key(invocation.session_id),
        !invocation.blocked,
        tracker.finish(invocation, Some(result), imposed, references).1 is Some,
        references.len() == invocation.parts(result, imposed).len(),
        references.no_duplicates(),
    ensures
        ({
            let before = tracker.sessions[invocation.session_id].variables;
            let after = tracker.finish(
                invocation,
                Some(result),
                imposed,
                references,
            ).0.sessions[invocation.session_id].variables;
            let parts = invocation.parts(result, imposed);
            &&& after.contains_key(reference) <==> before.contains_key(reference) || exists|k: int|
                0 <= k < parts.len() && goes_hidden(
                    tracker,
                    invocation,
                    (#[trigger] parts[k]).label,
                ) && references[k] == reference
            &&& before.contains_key(reference) && !references.contains(reference)
                ==> after[reference] == before[reference]
            &&& 0 <= i < parts.len() && goes_hidden(tracker, invocation, parts[i].label)
                ==> after[references[i]].payload == parts[i].payload && after[references[i]].label
                == parts[i].label
        }),
{
    let session = tracker.sessions[invocation.session_id];
    let parts = invocation.parts(result, imposed);
    let hiding = tracker.hides(invocation);
    lemma_delivered_variables(session, invocation.id, hiding, parts, references, reference);
    hidden_values_are_kept(
        session,
        invocation,
        hiding,
        Some(result),
        imposed,
        references,
        i,
        reference,
    );
    assert forall|k: int| 0 <= k < parts.len() implies session.conceals(
        hiding,
        (#[trigger] parts[k]).label,
    ) == goes_hidden(tracker, invocation, parts[k].label) by {}
}

/// How many bytes are counted for a value that is kept: those of its JSON text, and those of its
/// label's metadata where there is any.
pub open spec fn kept_bytes(value: VariableView) -> int {
    encode_utf8(json_text(value.payload)).len() as int + if value.label.metadata.len() > 0 {
        encode_utf8(json_text(JsonView::Object(value.label.metadata))).len() as int
    } else {
        0
    }
}

/// How many of the values are hidden.
pub open spec fn hidden_count(
    tracker: TrackerView,
    invocation: InvocationView,
    parts: Seq<VariableView>,
) -> int
    decreases parts.len(),
{
    if parts.len() == 0 {
        0
    } else {
        hidden_count(tracker, invocation, parts.drop_last()) + if goes_hidden(
            tracker,
            invocation,
            parts.last().label,
        ) {
            1int
        } else {
            0int
        }
    }
}

/// How many bytes are counted for those of the values that are hidden.
pub open spec fn hidden_bytes(
    tracker: TrackerView,
    invocation: InvocationView,
    parts: Seq<VariableView>,
) -> int
    decreases parts.len(),
{
    if parts.len() == 0 {
        0
    } else {
        hidden_bytes(tracker, invocation, parts.drop_last()) + if goes_hidden(
            tracker,
            invocation,
            parts.last().label,
        ) {
            kept_bytes(parts.last())
        } else {
            0
        }
    }
}

proof fn lemma_room(
    tracker: TrackerView,
    invocation: InvocationView,
    parts: Seq<VariableView>,
    references: Seq<Seq<char>>,
)
    requires
        tracker.sessions.contains_key(invocation.session_id),
        tracker.sessions[invocation.session_id].bounded(),
        references.len() == parts.len(),
        references.no_duplicates(),
        forall|i: int|
            0 <= i < references.len()
                ==> !tracker.sessions[invocation.session_id].variables.contains_key(
                #[trigger] references[i],
            ),
    ensures
        ({
            let session = tracker.sessions[invocation.session_id];
            let delivery = delivered(
                session,
                invocation.id,
                tracker.hides(invocation),
                parts,
                references,
            );
            let count = hidden_count(tracker, invocation, parts);
            let bytes = hidden_bytes(tracker, invocation, parts);
            &&& count >= 0
            &&& bytes >= 0
            &&& delivery.complete <==> session.variables.len() + count <= 1024
                && session.stored_bytes + bytes <= 16 * 1024 * 1024
            &&& delivery.complete ==> {
                &&& delivery.session.variables.dom().finite()
                &&& delivery.session.variables.len() == session.variables.len() + count
                &&& delivery.session.stored_bytes == session.stored_bytes + bytes
                &&& delivery.session.label == session.label
            }
            &&& forall|name: Seq<char>|
                delivery.session.variables.contains_key(name)
                    ==> session.variables.contains_key(name) || references.contains(name)
        }),
    decreases parts.len(),
{
    if parts.len() > 0 {
        let session = tracker.sessions[invocation.session_id];
        let hiding = tracker.hides(invocation);
        let rest = parts.drop_last();
        let names = references.drop_last();
        assert forall|i: int| 0 <= i < names.len() implies !session.variables.contains_key(
            #[trigger] names[i],
        ) by {
            assert(names[i] == references[i]);
        }
        lemma_room(tracker, invocation, rest, names);
        let before = delivered(session, invocation.id, hiding, rest, names);
        let last = references[references.len() - 1];
        assert(!session.variables.contains_key(last));
        if names.contains(last) {
            let i = names.index_of(last);
            assert(references[i] == last);
        }
        assert(!before.session.variables.contains_key(last));
        let delivery = delivered(session, invocation.id, hiding, parts, references);
        if before.complete && before.session.can_present(hiding, parts.last()) {
            if session.conceals(hiding, parts.last().label) {
                assert(delivery.session.variables.dom()
                    =~= before.session.variables.dom().insert(last));
            }
        }
        assert forall|name: Seq<char>|
            delivery.session.variables.contains_key(name) implies session.variables.contains_key(
            name,
        ) || references.contains(name) by {
            if names.contains(name) {
                let i = names.index_of(name);
                assert(references[i] == name);
            }
        }
    }
}

/// A result is handed on exactly where there is room for all of it that is hidden: with it the
/// session holds no more than a thousand and twenty-four variables, and sixteen times two to the
/// twentieth bytes of payloads and metadata. The session then counts what was hidden, and
/// nothing more.
pub proof fn results_are_handed_on_where_there_is_room(
    tracker: TrackerView,
    invocation: InvocationView,
    result: ResultView,
    imposed: Option<ContentLabelView>,
    references: Seq<Seq<char>>,
)
    requires
        tracker.sessions.contains_key(invocation.session_id),
        tracker.sessions[invocation.session_id].bounded(),
        !invocation.blocked,
        references.len() == invocation.parts(result, imposed).len(),
        references.no_duplicates(),
        forall|i: int|
            0 <= i < references.len()
                ==> !tracker.sessions[invocation.session_id].variables.contains_key(
                #[trigger] references[i],
            ),
    ensures
        ({
            let session = tracker.sessions[invocation.session_id];
            let (after, output) = tracker.finish(invocation, Some(result), imposed, references);
            let parts = invocation.parts(result, imposed);
            let count = hidden_count(tracker, invocation, parts);
            let bytes = hidden_bytes(tracker, invocation, parts);
            &&& output is Some <==> session.variables.len() + count <= 1024
                && session.stored_bytes + bytes <= 16 * 1024 * 1024
            &&& output is Some ==> {
                let kept = after.sessions[invocation.session_id];
                &&& kept.variables.len() == session.variables.len() + count
                &&& kept.stored_bytes == session.stored_bytes + bytes
                &&& kept.trace_id == session.trace_id
            }
        }),
{
    lemma_room(tracker, invocation, invocation.parts(result, imposed), references);
    delivery_keeps_the_label(
        tracker.sessions[invocation.session_id],
        invocation.id,
        tracker.hides(invocation),
        invocation.parts(result, imposed),
        references,
    );
}

proof fn lemma_out_of_room(
    session: SessionView,
    invocation_id: Seq<char>,
    hiding: bool,
    parts: Seq<VariableView>,
    references: Seq<Seq<char>>,
)
    ensures
        ({
            let delivery = delivered(session, invocation_id, hiding, parts, references);
            !delivery.complete ==> exists|i: int|
                0 <= i < parts.len() && session.conceals(hiding, (#[trigger] parts[i]).label)
                    && delivery.session.label == session.label.join(parts[i].label)
        }),
    decreases parts.len(),
{
    if parts.len() > 0 {
        let rest = parts.drop_last();
        let names = references.drop_last();
        let before = delivered(session, invocation_id, hiding, rest, names);
        lemma_out_of_room(session, invocation_id, hiding, rest, names);
        delivery_keeps_the_label(session, invocation_id, hiding, rest, names);
        if !before.complete {
            let i = choose|i: int|
                0 <= i < rest.len() && session.conceals(hiding, (#[trigger] rest[i]).label)
                    && before.session.label == session.label.join(rest[i].label);
            assert(parts[i] == rest[i]);
        } else {
            assert(parts[parts.len() - 1] == parts.last());
        }
    }
}

/// A result that is not handed on for want of room leaves the session with the label of one value
/// that was to be hidden, joined to its own, and with no other.
pub proof fn want_of_room_adds_one_label(
    tracker: TrackerView,
    invocation: InvocationView,
    result: ResultView,
    imposed: Option<ContentLabelView>,
    references: Seq<Seq<char>>,
)
    requires
        tracker.sessions.contains_key(invocation.session_id),
        !invocation.blocked,
        tracker.finish(invocation, Some(result), imposed, references).1 is None,
    ensures
        ({
            let before = tracker.sessions[invocation.session_id].label;
            let after = tracker.finish(
                invocation,
                Some(result),
                imposed,
                references,
            ).0.sessions[invocation.session_id].label;
            let parts = invocation.parts(result, imposed);
            exists|i: int|
                0 <= i < parts.len() && goes_hidden(
                    tracker,
                    invocation,
                    (#[trigger] parts[i]).label,
                ) && after == before.join(parts[i].label)
        }),
{
    let session = tracker.sessions[invocation.session_id];
    let parts = invocation.parts(result, imposed);
    let hiding = tracker.hides(invocation);
    lemma_out_of_room(session, invocation.id, hiding, parts, references);
    let delivery = delivered(session, invocation.id, hiding, parts, references);
    let i = choose|i: int|
        0 <= i < parts.len() && session.conceals(hiding, (#[trigger] parts[i]).label)
            && delivery.session.label == session.label.join(parts[i].label);
    assert(goes_hidden(tracker, invocation, parts[i].label));
}

/// What is logged of a value: its session and its call, its reference, its label, whether it was
/// hidden, and the digest of it.
pub open spec fn logs_value(
    event: JsonView,
    trace_id: Seq<char>,
    invocation_id: Seq<char>,
    reference: Seq<char>,
    value: VariableView,
    hidden: bool,
) -> bool {
    has_entries(
        event,
        seq![
            ("event"@, JsonView::Text("value"@)),
            ("version"@, JsonView::Number("1"@)),
            ("session"@, JsonView::Text(trace_id)),
            ("invocation"@, JsonView::Text(invocation_id)),
            ("value_ref"@, JsonView::Text(reference)),
            ("label"@, written_axes(value.label)),
            ("hidden"@, JsonView::Bool(hidden)),
            ("content_digest"@, JsonView::Text(json_digest_of(value.payload))),
        ],
    )
}

proof fn lemma_value_event(
    trace_id: Seq<char>,
    invocation_id: Seq<char>,
    reference: Seq<char>,
    value: VariableView,
    hidden: bool,
)
    ensures
        logs_value(
            value_event(
                trace_id,
                invocation_id,
                reference,
                value.label,
                hidden,
                json_digest_of(value.payload),
            ),
            trace_id,
            invocation_id,
            reference,
            value,
            hidden,
        ),
{
    let label = value.label;
    assert(label.axes_entries() =~= seq![
        ("confidentiality"@, written_confidentiality(label.confidentiality)),
        ("integrity"@, written_integrity(label.integrity)),
    ]);
    let fields = value_event(
        trace_id,
        invocation_id,
        reference,
        label,
        hidden,
        json_digest_of(value.payload),
    )->Object_0;
    assert(fields.contains(fields[0]));
    assert(fields.contains(fields[1]));
    assert(fields.contains(fields[2]));
    assert(fields.contains(fields[3]));
    assert(fields.contains(fields[4]));
    assert(fields.contains(fields[5]));
    assert(fields.contains(fields[6]));
    assert(fields.contains(fields[7]));
}

proof fn lemma_value_events(
    session: SessionView,
    invocation_id: Seq<char>,
    hiding: bool,
    parts: Seq<VariableView>,
    references: Seq<Seq<char>>,
)
    requires
        references.len() == parts.len(),
        delivered(session, invocation_id, hiding, parts, references).complete,
    ensures
        ({
            let events = delivered(session, invocation_id, hiding, parts, references).events;
            &&& events.len() == parts.len()
            &&& forall|i: int|
                0 <= i < parts.len() ==> logs_value(
                    #[trigger] events[i],
                    session.trace_id,
                    invocation_id,
                    references[i],
                    parts[i],
                    session.conceals(hiding, parts[i].label),
                )
        }),
    decreases parts.len(),
{
    if parts.len() > 0 {
        let rest = parts.drop_last();
        let names = references.drop_last();
        lemma_value_events(session, invocation_id, hiding, rest, names);
        delivery_keeps_the_label(session, invocation_id, hiding, rest, names);
        lemma_value_event(
            session.trace_id,
            invocation_id,
            references.last(),
            parts.last(),
            session.conceals(hiding, parts.last().label),
        );
        let before = delivered(session, invocation_id, hiding, rest, names).events;
        let events = delivered(session, invocation_id, hiding, parts, references).events;
        assert forall|i: int| 0 <= i < parts.len() implies logs_value(
            #[trigger] events[i],
            session.trace_id,
            invocation_id,
            references[i],
            parts[i],
            session.conceals(hiding, parts[i].label),
        ) by {
            if i < rest.len() {
                assert(events[i] == before[i]);
                assert(rest[i] == parts[i]);
                assert(names[i] == references[i]);
            }
        }
    }
}

/// One event is logged of each value of a result that is handed on, in order, and one of the
/// result behind them: it tells the label of the session before and after, and whether the result
/// was an error.
#[verifier::spinoff_prover]
#[verifier::rlimit(60)]
pub proof fn results_are_logged(
    tracker: TrackerView,
    invocation: InvocationView,
    result: ResultView,
    imposed: Option<ContentLabelView>,
    references: Seq<Seq<char>>,
)
    requires
        tracker.sessions.contains_key(invocation.session_id),
        !invocation.blocked,
        !tracker.log_failed,
        tracker.finish(invocation, Some(result), imposed, references).1 is Some,
        references.len() == invocation.parts(result, imposed).len(),
    ensures
        ({
            let session = tracker.sessions[invocation.session_id];
            let after = tracker.finish(invocation, Some(result), imposed, references).0;
            let parts = invocation.parts(result, imposed);
            let start = tracker.pending.len() as int;
            &&& after.pending.len() == start + parts.len() + 1
            &&& after.pending.take(start) == tracker.pending
            &&& forall|i: int|
                0 <= i < parts.len() ==> logs_value(
                    after.pending[start + i],
                    session.trace_id,
                    invocation.id,
                    references[i],
                    #[trigger] parts[i],
                    goes_hidden(tracker, invocation, parts[i].label),
                )
            &&& has_entries(
                after.pending.last(),
                seq![
                    ("event"@, JsonView::Text("tool_result"@)),
                    ("version"@, JsonView::Number("1"@)),
                    ("session"@, JsonView::Text(session.trace_id)),
                    ("invocation"@, JsonView::Text(invocation.id)),
                    ("context_before"@, written_axes(session.label)),
                    (
                        "context_after"@,
                        written_axes(after.sessions[invocation.session_id].label),
                    ),
                    ("error"@, JsonView::Bool(result.is_error == Some(true))),
                ],
            )
        }),
{
    let session = tracker.sessions[invocation.session_id];
    let hiding = tracker.hides(invocation);
    let after = tracker.finish(invocation, Some(result), imposed, references).0;
    let parts = invocation.parts(result, imposed);
    let start = tracker.pending.len() as int;
    lemma_value_events(session, invocation.id, hiding, parts, references);
    let events = delivered(session, invocation.id, hiding, parts, references).events;
    assert(after.pending.take(start) =~= tracker.pending);
    assert forall|i: int| 0 <= i < parts.len() implies logs_value(
        after.pending[start + i],
        session.trace_id,
        invocation.id,
        references[i],
        #[trigger] parts[i],
        goes_hidden(tracker, invocation, parts[i].label),
    ) by {
        assert(after.pending[start + i] == events[i]);
        assert(session.conceals(hiding, parts[i].label) == goes_hidden(
            tracker,
            invocation,
            parts[i].label,
        ));
    }
    let before = session.label;
    let label = after.sessions[invocation.session_id].label;
    assert(before.axes_entries() =~= seq![
        ("confidentiality"@, written_confidentiality(before.confidentiality)),
        ("integrity"@, written_integrity(before.integrity)),
    ]);
    assert(label.axes_entries() =~= seq![
        ("confidentiality"@, written_confidentiality(label.confidentiality)),
        ("integrity"@, written_integrity(label.integrity)),
    ]);
    let fields = after.pending.last()->Object_0;
    assert(fields.contains(fields[0]));
    assert(fields.contains(fields[1]));
    assert(fields.contains(fields[2]));
    assert(fields.contains(fields[3]));
    assert(fields.contains(fields[4]));
    assert(fields.contains(fields[5]));
    assert(fields.contains(fields[6]));
}

/// A result of a call that is blocked, or whose session is not tracked, is not handed on and
/// changes nothing.
pub proof fn no_result_is_taken_for_a_blocked_call(
    tracker: TrackerView,
    invocation: InvocationView,
    result: Option<ResultView>,
    imposed: Option<ContentLabelView>,
    references: Seq<Seq<char>>,
)
    requires
        invocation.blocked || !tracker.sessions.contains_key(invocation.session_id),
    ensures
        tracker.finish(invocation, result, imposed, references).0 == tracker,
        tracker.finish(invocation, result, imposed, references).1 is None,
{
}

/// Every value of what a quarantined model answers is untrusted and just as confidential as the
/// call, whatever the answer or the tool's policy says; so is the value that is kept of it, and
/// the session becomes at least as confidential.
pub proof fn answers_are_labeled_by_the_call(
    tracker: TrackerView,
    invocation: InvocationView,
    result: ResultView,
    references: Seq<Seq<char>>,
    i: int,
)
    requires
        tracker.sessions.contains_key(invocation.session_id),
        !invocation.blocked,
        references.len() == part_count(result),
        references.no_duplicates(),
        0 <= i < references.len(),
        tracker.finish_quarantine(invocation, Some(result), references).1 is Some,
    ensures
        ({
            let after = tracker.finish_quarantine(invocation, Some(result), references).0;
            let session = after.sessions[invocation.session_id];
            let shown = ContentLabelView {
                integrity: Integrity::Untrusted,
                confidentiality: invocation.label.confidentiality,
                metadata: Seq::empty(),
            };
            &&& session.label.confidentiality.rank() >= invocation.label.confidentiality.rank()
            &&& goes_hidden(tracker, invocation, shown) ==> {
                &&& session.variables.contains_key(references[i])
                &&& session.variables[references[i]].label.integrity == Integrity::Untrusted
                &&& session.variables[references[i]].label.confidentiality
                    == invocation.label.confidentiality
            }
            &&& !goes_hidden(tracker, invocation, shown) ==> session.label.integrity
                == Integrity::Untrusted
        }),
{
    let imposed = Some(ContentLabelView::untrusted(invocation.label.confidentiality));
    let session = tracker.sessions[invocation.session_id];
    let parts = invocation.parts(result, imposed);
    assert(parts.len() == references.len());
    other_claims_are_not_read(invocation, result, imposed, i);
    results_add_to_the_context(
        session,
        invocation,
        tracker.hides(invocation),
        Some(result),
        imposed,
        references,
        i,
    );
    hidden_values_are_kept(
        session,
        invocation,
        tracker.hides(invocation),
        Some(result),
        imposed,
        references,
        i,
        Seq::empty(),
    );
}

/// An inspection shows the first variable of its call: its text, or its JSON text where it is
/// none. What it shows is not hidden, carries the label of the call, and the session takes on all
/// of that label. Anything but an inspection shows nothing and changes nothing.
pub proof fn inspections_show_their_variable(
    tracker: TrackerView,
    invocation: InvocationView,
    references: Seq<Seq<char>>,
)
    requires
        tracker.sessions.contains_key(invocation.session_id),
        !invocation.blocked,
        references.len() == 1,
    ensures
        ({
            let (after, output) = tracker.inspect(invocation, references);
            let inspection = invocation.name == INSPECT_VARIABLE@ && invocation.variables.len() > 0;
            &&& !inspection ==> after == tracker && output is None
            &&& inspection ==> output is Some
            &&& inspection ==> {
                let shown = output->Some_0;
                let text = match invocation.variables[0] {
                    JsonView::Text(text) => text,
                    payload => json_text(payload),
                };
                let session = after.sessions[invocation.session_id];
                &&& shown.content.len() == 1
                &&& lookup(shown.content[0], "text"@) == Some(JsonView::Text(text))
                &&& lookup(shown.content[0], "type"@) == Some(JsonView::Text("text"@))
                &&& metadata_in(shown.content[0]) matches Some(metadata) && lookup(
                    metadata,
                    "goose.fides.label"@,
                ) == Some(invocation.label.json())
                &&& session.label.covers(invocation.label)
                &&& session.label.covers(tracker.sessions[invocation.session_id].label)
                &&& session.variables == tracker.sessions[invocation.session_id].variables
            }
        }),
{
    if invocation.name == INSPECT_VARIABLE@ && invocation.variables.len() > 0 {
        let session = tracker.sessions[invocation.session_id];
        let result = invocation.inspection()->Some_0;
        let imposed = Some(invocation.label);
        let parts = invocation.parts(result, imposed);
        let hiding = tracker.hides(invocation);
        lemma_item_names();
        reveal_with_fuel(lookup, 3);
        let item = result.content[0];
        assert(item.drop_first()[0] == item[1]);
        assert(parts.len() == 1);
        assert(parts.drop_last().len() == 0);
        assert(references.drop_last().len() == 0);
        assert(delivered(
            session,
            invocation.id,
            hiding,
            parts.drop_last(),
            references.drop_last(),
        ).complete);
        assert(delivered(session, invocation.id, hiding, parts, references).complete);
        assert(parts[0].label == invocation.label);
        results_add_to_the_context(
            session,
            invocation,
            hiding,
            Some(result),
            imposed,
            references,
            0,
        );
        sessions_take_on_what_results_hold(tracker, invocation, result, imposed, references);
        results_are_handed_on_in_place(
            tracker,
            invocation,
            result,
            imposed,
            references,
            0,
            "text"@,
        );
        results_are_handed_on_in_place(
            tracker,
            invocation,
            result,
            imposed,
            references,
            0,
            "type"@,
        );
        results_are_handed_on_in_place(
            tracker,
            invocation,
            result,
            imposed,
            references,
            0,
            "goose.fides.label"@,
        );
    }
}

/// Where presenting stopped: at the value of that place, which was to be hidden and found no
/// room, after all before it were presented.
pub open spec fn stops_at(
    session: SessionView,
    invocation_id: Seq<char>,
    hiding: bool,
    parts: Seq<VariableView>,
    references: Seq<Seq<char>>,
    n: int,
) -> bool {
    &&& 0 <= n < parts.len()
    &&& session.conceals(hiding, parts[n].label)
    &&& ({
        let before = delivered(
            session,
            invocation_id,
            hiding,
            parts.take(n),
            references.take(n),
        );
        &&& before.complete
        &&& before.session.variables.len() >= 1024 || before.session.stored_bytes + kept_bytes(
            parts[n],
        ) > 16 * 1024 * 1024
    })
}

proof fn lemma_stops(
    session: SessionView,
    invocation_id: Seq<char>,
    hiding: bool,
    parts: Seq<VariableView>,
    references: Seq<Seq<char>>,
)
    requires
        references.len() == parts.len(),
        !delivered(session, invocation_id, hiding, parts, references).complete,
    ensures
        exists|n: int|
            #[trigger] stops_at(session, invocation_id, hiding, parts, references, n) && ({
                let before = delivered(
                    session,
                    invocation_id,
                    hiding,
                    parts.take(n),
                    references.take(n),
                );
                let after = delivered(session, invocation_id, hiding, parts, references);
                &&& after.events == before.events
                &&& after.session.variables == before.session.variables
                &&& after.session.stored_bytes == before.session.stored_bytes
                &&& after.session.trace_id == session.trace_id
                &&& after.session.label == session.label.join(parts[n].label)
            }),
    decreases parts.len(),
{
    let rest = parts.drop_last();
    let names = references.drop_last();
    let before = delivered(session, invocation_id, hiding, rest, names);
    let after = delivered(session, invocation_id, hiding, parts, references);
    delivery_keeps_the_label(session, invocation_id, hiding, rest, names);
    delivery_keeps_the_label(session, invocation_id, hiding, parts, references);
    if before.complete {
        let n = parts.len() - 1;
        assert(parts.take(n) =~= rest);
        assert(references.take(n) =~= names);
        assert(stops_at(session, invocation_id, hiding, parts, references, n));
    } else {
        lemma_stops(session, invocation_id, hiding, rest, names);
        let n = choose|n: int|
            #[trigger] stops_at(session, invocation_id, hiding, rest, names, n) && ({
                let first = delivered(
                    session,
                    invocation_id,
                    hiding,
                    rest.take(n),
                    names.take(n),
                );
                &&& before.events == first.events
                &&& before.session.variables == first.session.variables
                &&& before.session.stored_bytes == first.session.stored_bytes
                &&& before.session.trace_id == session.trace_id
                &&& before.session.label == session.label.join(rest[n].label)
            });
        assert(parts.take(n) =~= rest.take(n));
        assert(references.take(n) =~= names.take(n));
        assert(parts[n] == rest[n]);
        assert(stops_at(session, invocation_id, hiding, parts, references, n));
    }
}

/// A result that is not handed on was presented up to the first value that was to be hidden and
/// found no room. The values before it are logged, and kept where they were hidden; that value
/// and those behind it are neither, and no result is logged. The session takes on the label of
/// that value.
#[verifier::spinoff_prover]
#[verifier::rlimit(60)]
pub proof fn results_are_presented_up_to_the_first_without_room(
    tracker: TrackerView,
    invocation: InvocationView,
    result: ResultView,
    imposed: Option<ContentLabelView>,
    references: Seq<Seq<char>>,
)
    requires
        tracker.sessions.contains_key(invocation.session_id),
        !invocation.blocked,
        !tracker.log_failed,
        references.len() == invocation.parts(result, imposed).len(),
        tracker.finish(invocation, Some(result), imposed, references).1 is None,
    ensures
        ({
            let session = tracker.sessions[invocation.session_id];
            let after = tracker.finish(invocation, Some(result), imposed, references).0;
            let kept = after.sessions[invocation.session_id];
            let parts = invocation.parts(result, imposed);
            let hiding = tracker.hides(invocation);
            let start = tracker.pending.len() as int;
            exists|n: int|
                #[trigger] stops_at(session, invocation.id, hiding, parts, references, n) && {
                    &&& after.pending.len() == start + n
                    &&& after.pending.take(start) == tracker.pending
                    &&& forall|i: int|
                        0 <= i < n ==> logs_value(
                            after.pending[start + i],
                            session.trace_id,
                            invocation.id,
                            references[i],
                            #[trigger] parts[i],
                            goes_hidden(tracker, invocation, parts[i].label),
                        )
                    &&& forall|reference: Seq<char>|
                        kept.variables.contains_key(reference) <==> session.variables.contains_key(
                            reference,
                        ) || exists|k: int|
                            0 <= k < n && goes_hidden(
                                tracker,
                                invocation,
                                (#[trigger] parts[k]).label,
                            ) && references[k] == reference
                    &&& kept.label == session.label.join(parts[n].label)
                    &&& kept.trace_id == session.trace_id
                }
        }),
{
    let session = tracker.sessions[invocation.session_id];
    let after = tracker.finish(invocation, Some(result), imposed, references).0;
    let kept = after.sessions[invocation.session_id];
    let parts = invocation.parts(result, imposed);
    let hiding = tracker.hides(invocation);
    let start = tracker.pending.len() as int;
    lemma_stops(session, invocation.id, hiding, parts, references);
    let whole = delivered(session, invocation.id, hiding, parts, references);
    let n = choose|n: int|
        #[trigger] stops_at(session, invocation.id, hiding, parts, references, n) && ({
            let before = delivered(
                session,
                invocation.id,
                hiding,
                parts.take(n),
                references.take(n),
            );
            &&& whole.events == before.events
            &&& whole.session.variables == before.session.variables
            &&& whole.session.stored_bytes == before.session.stored_bytes
            &&& whole.session.trace_id == session.trace_id
            &&& whole.session.label == session.label.join(parts[n].label)
        });
    let first = parts.take(n);
    let names = references.take(n);
    lemma_value_events(session, invocation.id, hiding, first, names);
    assert(after.pending.take(start) =~= tracker.pending);
    assert forall|i: int| 0 <= i < n implies logs_value(
        after.pending[start + i],
        session.trace_id,
        invocation.id,
        references[i],
        #[trigger] parts[i],
        goes_hidden(tracker, invocation, parts[i].label),
    ) by {
        assert(first[i] == parts[i]);
        assert(names[i] == references[i]);
        assert(after.pending[start + i] == whole.events[i]);
    }
    assert forall|reference: Seq<char>|
        kept.variables.contains_key(reference) <==> session.variables.contains_key(reference)
            || exists|k: int|
            0 <= k < n && goes_hidden(tracker, invocation, (#[trigger] parts[k]).label)
                && references[k] == reference by {
        lemma_delivered_variables(session, invocation.id, hiding, first, names, reference);
        assert(forall|k: int| 0 <= k < n ==> #[trigger] parts[k] == first[k]);
        assert(forall|k: int| 0 <= k < n ==> parts[k] == #[trigger] first[k]);
        assert(forall|k: int| 0 <= k < n ==> references[k] == names[k]);
    }
}

/// Only the session of an invocation takes on anything of its result; the configuration and every
/// other session stay as they were, and so does whether writing works.
pub proof fn results_change_only_their_session(
    tracker: TrackerView,
    invocation: InvocationView,
    result: Option<ResultView>,
    imposed: Option<ContentLabelView>,
    references: Seq<Seq<char>>,
    other: Seq<char>,
)
    ensures
        ({
            let after = tracker.finish(invocation, result, imposed, references).0;
            &&& after.config == tracker.config
            &&& after.sessions.contains_key(other) == tracker.sessions.contains_key(other)
            &&& other != invocation.session_id && after.sessions.contains_key(other)
                ==> after.sessions[other] == tracker.sessions[other]
            &&& after.log_failed == tracker.log_failed
            &&& tracker.log_failed ==> after.pending == tracker.pending
        }),
{
}

/// A new tracker has no session and nothing to log; every session starts at the configured label.
pub proof fn new_trackers_hold_nothing(
    config: ConfigView,
    session_id: Seq<char>,
)
    ensures
        ({
            let tracker = TrackerView::empty(config);
            &&& tracker.config == config
            &&& tracker.context_label(session_id) == config.initial_label
            &&& tracker.sessions.len() == 0
            &&& tracker.pending.len() == 0
            &&& !tracker.log_failed && !tracker.warned
            &&& tracker.bounded()
        }),
{
}

} // verus!
