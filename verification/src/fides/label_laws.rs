//! Laws of content labels and policies.
use crate::fides::content_label::{
    label_of_json, only_label_keys, Confidentiality, ContentLabelView, Integrity,
};
use crate::fides::message::ToolView;
use crate::fides::policy::{ConfigView, PolicyView};
use crate::json::{lemma_lookup_none, lookup, merge_prefers_later, EntriesView, JsonView};
use vstd::prelude::*;

verus! {

/// The same classification, whatever the metadata.
pub open spec fn same_axes(left: ContentLabelView, right: ContentLabelView) -> bool {
    left.integrity == right.integrity && left.confidentiality == right.confidentiality
}

/// A label joined with itself is classified as before, and has the same metadata under every
/// key.
pub proof fn label_join_is_idempotent(label: ContentLabelView, key: Seq<char>)
    ensures
        same_axes(label.join(label), label),
        lookup(label.join(label).metadata, key) == lookup(label.metadata, key),
{
    merge_prefers_later(label.metadata, label.metadata, key);
}

/// The order of a join does not change the classification.
pub proof fn label_join_is_commutative(left: ContentLabelView, right: ContentLabelView)
    ensures
        same_axes(left.join(right), right.join(left)),
{
}

/// The grouping of joins changes neither the classification nor what the metadata has under
/// any key.
pub proof fn label_join_is_associative(
    first: ContentLabelView,
    second: ContentLabelView,
    third: ContentLabelView,
    key: Seq<char>,
)
    ensures
        same_axes(first.join(second).join(third), first.join(second.join(third))),
        lookup(first.join(second).join(third).metadata, key) == lookup(
            first.join(second.join(third)).metadata,
            key,
        ),
{
    merge_prefers_later(first.metadata, second.metadata, key);
    merge_prefers_later(first.join(second).metadata, third.metadata, key);
    merge_prefers_later(second.metadata, third.metadata, key);
    merge_prefers_later(first.metadata, second.join(third).metadata, key);
}

/// Labels without metadata join to a label without metadata.
pub proof fn join_adds_no_metadata(left: ContentLabelView, right: ContentLabelView)
    requires
        left.metadata.len() == 0,
        right.metadata.len() == 0,
    ensures
        left.join(right).metadata.len() == 0,
{
    assert(right.metadata =~= Seq::empty());
    reveal(Seq::filter);
}

/// The join is the least restrictive label that is as restrictive as both.
pub proof fn join_is_the_least_cover(
    left: ContentLabelView,
    right: ContentLabelView,
    other: ContentLabelView,
)
    ensures
        left.join(right).covers(left),
        left.join(right).covers(right),
        other.covers(left) && other.covers(right) ==> other.covers(left.join(right)),
{
}

/// Of two joined labels, the later one's metadata wins under every key that it has.
pub proof fn later_metadata_wins(left: ContentLabelView, right: ContentLabelView, key: Seq<char>)
    ensures
        lookup(left.join(right).metadata, key) == (match lookup(right.metadata, key) {
            Some(value) => Some(value),
            None => lookup(left.metadata, key),
        }),
{
    merge_prefers_later(left.metadata, right.metadata, key);
}

proof fn lemma_names()
    ensures
        "trusted"@ != "untrusted"@,
        "public"@ != "private"@,
        "public"@ != "user_identity"@,
        "private"@ != "user_identity"@,
        "confidentiality"@ != "integrity"@,
        "confidentiality"@ != "metadata"@,
        "integrity"@ != "metadata"@,
{
    reveal_strlit("trusted");
    reveal_strlit("untrusted");
    reveal_strlit("public");
    reveal_strlit("private");
    reveal_strlit("user_identity");
    reveal_strlit("confidentiality");
    reveal_strlit("integrity");
    reveal_strlit("metadata");
    assert("public"@.len() == 6);
    assert("private"@.len() == 7);
    assert("user_identity"@.len() == 13);
    assert("trusted"@.len() == 7);
    assert("untrusted"@.len() == 9);
    assert("confidentiality"@.len() == 15);
    assert("integrity"@.len() == 9);
    assert("metadata"@.len() == 8);
}

/// A label that was written is read back as it was, metadata and all.
pub proof fn labels_survive_the_wire(label: ContentLabelView)
    ensures
        label_of_json(label.json()) == Some(label),
{
    lemma_names();
    let entries = label.json()->Object_0;
    assert(only_label_keys(entries));
    reveal_with_fuel(lookup, 4);
    assert(entries.drop_first()[0] == entries[1]);
    if label.metadata.len() == 0 {
        assert(label.metadata =~= Seq::empty());
    } else {
        assert(entries.drop_first().drop_first()[0] == entries[2]);
    }
    assert(lookup(entries, "confidentiality"@) == Some(entries[0].1));
    assert(lookup(entries, "integrity"@) == Some(entries[1].1));
}

/// A label without metadata is written without a field for it.
pub proof fn empty_metadata_is_not_written(label: ContentLabelView)
    ensures
        lookup(label.json()->Object_0, "metadata"@) is None <==> label.metadata.len() == 0,
{
    lemma_names();
    let entries = label.json()->Object_0;
    lemma_lookup_none(entries, "metadata"@);
    if label.metadata.len() > 0 {
        assert(entries[2].0 == "metadata"@);
    }
}

/// An object is a label only where both axes are given and nothing but the metadata is
/// added.
pub proof fn labels_are_read_strictly(entries: EntriesView)
    requires
        label_of_json(JsonView::Object(entries)) is Some,
    ensures
        lookup(entries, "integrity"@) is Some,
        lookup(entries, "confidentiality"@) is Some,
        only_label_keys(entries),
{
}

/// Metadata decides nothing: labels of the same classification are joined, checked and written
/// in events alike.
pub proof fn metadata_decides_nothing(
    policy: PolicyView,
    left: ContentLabelView,
    right: ContentLabelView,
    other: ContentLabelView,
)
    requires
        same_axes(left, right),
    ensures
        policy.allows(left) == policy.allows(right),
        policy.integrity_violation(left) == policy.integrity_violation(right),
        policy.confidentiality_violation(left) == policy.confidentiality_violation(right),
        same_axes(left.join(other), right.join(other)),
        left.axes_json() == right.axes_json(),
{
}

/// What a policy allows, it allows of every less restrictive label too.
pub proof fn lower_labels_are_allowed(
    policy: PolicyView,
    label: ContentLabelView,
    lower: ContentLabelView,
)
    requires
        policy.allows(label),
        label.covers(lower),
    ensures
        policy.allows(lower),
{
}

/// The middleware's own tools may be called from every context, and believe no label.
pub proof fn own_tools_accept_every_context(policy: PolicyView, label: ContentLabelView)
    ensures
        policy.internal().allows(label),
        !policy.internal().trust_result_labels,
{
}

/// Trusted is the least restrictive integrity; public is less restrictive than private, and
/// private less than a user's identity.
pub proof fn axes_are_ordered()
    ensures
        Integrity::Trusted.rank() < Integrity::Untrusted.rank(),
        Confidentiality::Public.rank() < Confidentiality::Private.rank(),
        Confidentiality::Private.rank() < Confidentiality::UserIdentity.rank(),
{
}

/// A join is trusted only where both labels are, public only where both are, and as restrictive
/// as can be where either is.
pub proof fn joins_take_the_more_restrictive(left: ContentLabelView, right: ContentLabelView)
    ensures
        left.join(right).integrity == Integrity::Trusted <==> left.integrity == Integrity::Trusted
            && right.integrity == Integrity::Trusted,
        left.join(right).confidentiality == Confidentiality::Public <==> left.confidentiality
            == Confidentiality::Public && right.confidentiality == Confidentiality::Public,
        left.join(right).confidentiality == Confidentiality::UserIdentity <==> left.confidentiality
            == Confidentiality::UserIdentity || right.confidentiality
            == Confidentiality::UserIdentity,
{
}

/// A label is at least as restrictive as another where it is untrusted if the other is, not
/// public unless the other is, and a user's identity if the other is.
pub proof fn covering_is_by_both_axes(label: ContentLabelView, other: ContentLabelView)
    ensures
        label.covers(other) <==> {
            &&& other.integrity == Integrity::Untrusted ==> label.integrity == Integrity::Untrusted
            &&& label.confidentiality == Confidentiality::Public ==> other.confidentiality
                == Confidentiality::Public
            &&& other.confidentiality == Confidentiality::UserIdentity ==> label.confidentiality
                == Confidentiality::UserIdentity
        },
{
}

/// The lowest label is the least restrictive one, and an untrusted label is untrusted and as
/// confidential as was asked for; neither has metadata.
pub proof fn given_labels_are_as_they_are_called(
    confidentiality: Confidentiality,
    other: ContentLabelView,
)
    ensures
        other.covers(ContentLabelView::lowest()),
        ContentLabelView::lowest().metadata.len() == 0,
        ContentLabelView::untrusted(confidentiality).integrity == Integrity::Untrusted,
        ContentLabelView::untrusted(confidentiality).confidentiality == confidentiality,
        ContentLabelView::untrusted(confidentiality).metadata.len() == 0,
{
}

/// How an integrity is written.
pub open spec fn written_integrity(integrity: Integrity) -> JsonView {
    JsonView::Text(
        if integrity == Integrity::Trusted {
            "trusted"@
        } else {
            "untrusted"@
        },
    )
}

/// How a confidentiality is written.
pub open spec fn written_confidentiality(confidentiality: Confidentiality) -> JsonView {
    JsonView::Text(
        if confidentiality == Confidentiality::Public {
            "public"@
        } else if confidentiality == Confidentiality::Private {
            "private"@
        } else {
            "user_identity"@
        },
    )
}

/// A label is written by the names of its axes, in placeholders and events as on the wire.
pub proof fn axes_are_written_by_name(label: ContentLabelView)
    ensures
        lookup(label.axes_entries(), "integrity"@) == Some(written_integrity(label.integrity)),
        lookup(label.axes_entries(), "confidentiality"@) == Some(
            written_confidentiality(label.confidentiality),
        ),
        label.axes_entries().len() == 2,
        label.axes_json() == JsonView::Object(label.axes_entries()),
        lookup(label.json()->Object_0, "integrity"@) == Some(written_integrity(label.integrity)),
        lookup(label.json()->Object_0, "confidentiality"@) == Some(
            written_confidentiality(label.confidentiality),
        ),
        label.metadata.len() > 0 ==> lookup(label.json()->Object_0, "metadata"@) == Some(
            JsonView::Object(label.metadata),
        ),
        label.json() is Object,
{
    lemma_names();
    reveal_with_fuel(lookup, 4);
    let axes = label.axes_entries();
    assert(axes.drop_first()[0] == axes[1]);
    let entries = label.json()->Object_0;
    assert(entries.drop_first()[0] == entries[1]);
    if label.metadata.len() > 0 {
        assert(entries.drop_first().drop_first()[0] == entries[2]);
    }
}

/// An object with both axes written by name, and with no other field than metadata that is left
/// out, null or an object, is read as the label that it says, in whatever order its fields
/// stand.
pub proof fn written_labels_are_read(
    entries: EntriesView,
    integrity: Integrity,
    confidentiality: Confidentiality,
    metadata: EntriesView,
)
    requires
        forall|i: int|
            0 <= i < entries.len() ==> (#[trigger] entries[i]).0 == "integrity"@ || entries[i].0
                == "confidentiality"@ || entries[i].0 == "metadata"@,
        lookup(entries, "integrity"@) == Some(written_integrity(integrity)),
        lookup(entries, "confidentiality"@) == Some(written_confidentiality(confidentiality)),
        lookup(entries, "metadata"@) == Some(JsonView::Object(metadata)) || metadata.len() == 0 && (
        lookup(entries, "metadata"@) is None || lookup(entries, "metadata"@) == Some(
            JsonView::Null,
        )),
    ensures
        label_of_json(JsonView::Object(entries)) == Some(
            ContentLabelView { integrity, confidentiality, metadata },
        ),
{
    lemma_names();
    assert(metadata.len() == 0 ==> metadata =~= Seq::empty());
}

/// Whether a value names a variant: by a text, or by an object of the text and a null.
pub open spec fn names_variant(value: JsonView, name: JsonView) -> bool {
    value == name || value == JsonView::Object(seq![(name->Text_0, JsonView::Null)])
}

/// What is read as a label says so: both axes are named, no field is unknown, and the metadata
/// is what is given, or empty where none is.
pub proof fn labels_are_read_as_they_say(entries: EntriesView)
    ensures
        label_of_json(JsonView::Object(entries)) matches Some(label) ==> {
            &&& forall|i: int|
                0 <= i < entries.len() ==> (#[trigger] entries[i]).0 == "integrity"@ || entries[i].0
                    == "confidentiality"@ || entries[i].0 == "metadata"@
            &&& lookup(entries, "integrity"@) matches Some(value) && names_variant(
                value,
                written_integrity(label.integrity),
            )
            &&& lookup(entries, "confidentiality"@) matches Some(value) && names_variant(
                value,
                written_confidentiality(label.confidentiality),
            )
            &&& match lookup(entries, "metadata"@) {
                Some(JsonView::Object(metadata)) => label.metadata == metadata,
                Some(value) => value == JsonView::Null && label.metadata.len() == 0,
                None => label.metadata.len() == 0,
            }
        },
{
    lemma_names();
    if let Some(label) = label_of_json(JsonView::Object(entries)) {
        let integrity = lookup(entries, "integrity"@)->Some_0;
        let confidentiality = lookup(entries, "confidentiality"@)->Some_0;
        if let JsonView::Object(fields) = integrity {
            assert(fields =~= seq![(fields[0].0, JsonView::Null)]);
        }
        if let JsonView::Object(fields) = confidentiality {
            assert(fields =~= seq![(fields[0].0, JsonView::Null)]);
        }
    }
}

/// An axis that is named by an object of its name and a null is read like one that is named by
/// the text.
pub proof fn variants_are_named_in_two_ways(
    integrity: Integrity,
    confidentiality: Confidentiality,
    name: JsonView,
)
    ensures
        name is Text ==> {
            let long = JsonView::Object(seq![(name->Text_0, JsonView::Null)]);
            &&& label_of_json(
                JsonView::Array(seq![long, written_confidentiality(confidentiality)]),
            ) == label_of_json(
                JsonView::Array(seq![name, written_confidentiality(confidentiality)]),
            )
            &&& label_of_json(JsonView::Array(seq![written_integrity(integrity), long]))
                == label_of_json(JsonView::Array(seq![written_integrity(integrity), name]))
        },
{
    lemma_names();
    if name is Text {
        let fields = seq![(name->Text_0, JsonView::Null)];
        assert(fields[0] == (name->Text_0, JsonView::Null));
        let long = JsonView::Object(fields);
        let a = seq![long, written_confidentiality(confidentiality)];
        let b = seq![name, written_confidentiality(confidentiality)];
        assert(a[0] == long && a[1] == written_confidentiality(confidentiality) && a.len() == 2);
        assert(b[0] == name && b[1] == written_confidentiality(confidentiality) && b.len() == 2);
        let c = seq![written_integrity(integrity), long];
        let d = seq![written_integrity(integrity), name];
        assert(c[1] == long && c[0] == written_integrity(integrity) && c.len() == 2);
        assert(d[1] == name && d[0] == written_integrity(integrity) && d.len() == 2);
    }
}

/// A list of two or three values is read like the object with them for its integrity, its
/// confidentiality and its metadata. No other list is a label, and neither is anything that is
/// no list and no object.
pub proof fn lists_are_read_in_order(
    integrity: JsonView,
    confidentiality: JsonView,
    metadata: JsonView,
    items: Seq<JsonView>,
    other: JsonView,
)
    ensures
        label_of_json(JsonView::Array(seq![integrity, confidentiality])) == label_of_json(
            JsonView::Object(
                seq![("integrity"@, integrity), ("confidentiality"@, confidentiality)],
            ),
        ),
        label_of_json(JsonView::Array(seq![integrity, confidentiality, metadata]))
            == label_of_json(
            JsonView::Object(
                seq![
                    ("integrity"@, integrity),
                    ("confidentiality"@, confidentiality),
                    ("metadata"@, metadata),
                ],
            ),
        ),
        items.len() != 2 && items.len() != 3 ==> label_of_json(JsonView::Array(items)) is None,
        !(other is Object) && !(other is Array) ==> label_of_json(other) is None,
{
    lemma_names();
    reveal_with_fuel(lookup, 4);
    let two = seq![("integrity"@, integrity), ("confidentiality"@, confidentiality)];
    let three = seq![
        ("integrity"@, integrity),
        ("confidentiality"@, confidentiality),
        ("metadata"@, metadata),
    ];
    assert(two.drop_first()[0] == two[1]);
    assert(three.drop_first()[0] == three[1]);
    assert(three.drop_first().drop_first()[0] == three[2]);
    assert(only_label_keys(two));
    assert(only_label_keys(three));
    assert(lookup(two, "metadata"@) is None);
    assert(lookup(two, "integrity"@) == Some(integrity));
    assert(lookup(two, "confidentiality"@) == Some(confidentiality));
    assert(lookup(three, "integrity"@) == Some(integrity));
    assert(lookup(three, "confidentiality"@) == Some(confidentiality));
    assert(lookup(three, "metadata"@) == Some(metadata));
}

/// A policy that does not accept untrusted contexts allows no untrusted label; one that accepts
/// them and sets no maximum allows every label. A maximum allows what is no more confidential,
/// and nothing else.
pub proof fn policies_hold_both_axes(policy: PolicyView, label: ContentLabelView)
    ensures
        !policy.accepts_untrusted && label.integrity == Integrity::Untrusted ==> !policy.allows(
            label,
        ) && policy.integrity_violation(label),
        policy.accepts_untrusted || label.integrity == Integrity::Trusted
            ==> !policy.integrity_violation(label),
        policy.max_allowed_confidentiality is None || label.confidentiality
            == Confidentiality::Public ==> !policy.confidentiality_violation(label),
        policy.max_allowed_confidentiality == Some(Confidentiality::UserIdentity)
            ==> !policy.confidentiality_violation(label),
        policy.max_allowed_confidentiality == Some(Confidentiality::Private) ==> (
        policy.confidentiality_violation(label) <==> label.confidentiality
            == Confidentiality::UserIdentity),
        policy.max_allowed_confidentiality == Some(Confidentiality::Public) ==> (
        policy.confidentiality_violation(label) <==> label.confidentiality
            != Confidentiality::Public),
        policy.accepts_untrusted && policy.max_allowed_confidentiality is None ==> policy.allows(
            label,
        ),
        policy.allows(label) <==> !policy.integrity_violation(label)
            && !policy.confidentiality_violation(label),
{
}

/// Without a policy of its own, a tool is held to its hints: its results are trusted only where
/// it says that its world is closed, and it may be called from every context where it says that
/// it only reads, else from trusted and public ones alone. Its results are public, and its
/// labels are never believed.
pub proof fn hints_decide_where_no_policy_does(
    config: ConfigView,
    tool: ToolView,
    label: ContentLabelView,
)
    requires
        !config.tools.contains_key(tool.name),
    ensures
        ({
            let policy = config.policy(tool);
            let closed = tool.annotations is Some && tool.annotations->0.open_world_hint == Some(
                false,
            );
            let reads = tool.annotations is Some && tool.annotations->0.read_only_hint == Some(
                true,
            );
            &&& policy.source_label.integrity == Integrity::Trusted <==> closed
            &&& policy.source_label.confidentiality == Confidentiality::Public
            &&& policy.source_label.metadata.len() == 0
            &&& policy.allows(label) <==> reads || label.integrity == Integrity::Trusted
                && label.confidentiality == Confidentiality::Public
            &&& policy.integrity_violation(label) <==> !reads && label.integrity
                == Integrity::Untrusted
            &&& policy.confidentiality_violation(label) <==> !reads && label.confidentiality
                != Confidentiality::Public
            &&& !policy.trust_result_labels
        }),
{
}

/// A policy that is configured under a tool's name stands in place of the tool's hints.
pub proof fn configured_policies_stand_above_hints(config: ConfigView, tool: ToolView)
    requires
        config.tools.contains_key(tool.name),
    ensures
        config.policy(tool) == config.tools[tool.name],
{
}

/// A policy that says nothing is as strict as that of a tool without hints.
pub proof fn strict_policies_are_those_of_silent_tools(tool: ToolView)
    requires
        tool.annotations is None,
    ensures
        PolicyView::strict() == PolicyView::of_tool(tool),
{
    assert(PolicyView::strict() =~= PolicyView::of_tool(tool));
}

} // verus!
