//! Content labels: integrity, confidentiality and metadata.
use crate::json::{
    copy_entries, entries_view, entry, lookup, lookup_entry, merge_entries, merged, Entries,
    EntriesView, Json, JsonView,
};
use crate::text::same_text;
use crate::views::option_view;
use vstd::prelude::*;

verus! {

/// Whether content may be relied upon.
#[derive(Clone, Copy, Debug, Default, PartialEq, Eq, PartialOrd, Ord, Structural)]
pub enum Integrity {
    #[default]
    Trusted,
    Untrusted,
}

/// How widely content may go, from the least to the most restrictive.
#[derive(Clone, Copy, Debug, Default, PartialEq, Eq, PartialOrd, Ord, Structural)]
pub enum Confidentiality {
    #[default]
    Public,
    Private,
    UserIdentity,
}

/// The label of some content. Metadata is carried along and decides nothing.
#[derive(Debug, PartialEq, Eq)]
pub struct ContentLabel {
    pub integrity: Integrity,
    pub confidentiality: Confidentiality,
    pub metadata: Entries,
}

/// What a content label stands for.
#[verifier::ext_equal]
pub struct ContentLabelView {
    pub integrity: Integrity,
    pub confidentiality: Confidentiality,
    pub metadata: EntriesView,
}

impl View for ContentLabel {
    type V = ContentLabelView;

    open spec fn view(&self) -> ContentLabelView {
        ContentLabelView {
            integrity: self.integrity,
            confidentiality: self.confidentiality,
            metadata: entries_view(self.metadata@),
        }
    }
}

impl Integrity {
    /// The place in the order from least to most restrictive.
    pub open spec fn rank(self) -> int {
        match self {
            Integrity::Trusted => 0,
            Integrity::Untrusted => 1,
        }
    }

    /// The more restrictive of the two.
    pub open spec fn higher(self, other: Integrity) -> Integrity {
        if self.rank() >= other.rank() {
            self
        } else {
            other
        }
    }

    /// The name on the wire.
    pub open spec fn name(self) -> Seq<char> {
        match self {
            Integrity::Trusted => "trusted"@,
            Integrity::Untrusted => "untrusted"@,
        }
    }

    /// The more restrictive of the two.
    pub fn restrict(self, other: Integrity) -> (higher: Integrity)
        ensures
            higher == self.higher(other),
    {
        match self {
            Integrity::Trusted => other,
            Integrity::Untrusted => Integrity::Untrusted,
        }
    }

    fn wire_name(self) -> (name: String)
        ensures
            name@ == self.name(),
    {
        match self {
            Integrity::Trusted => "trusted".to_owned(),
            Integrity::Untrusted => "untrusted".to_owned(),
        }
    }
}

impl Confidentiality {
    /// The place in the order from least to most restrictive.
    pub open spec fn rank(self) -> int {
        match self {
            Confidentiality::Public => 0,
            Confidentiality::Private => 1,
            Confidentiality::UserIdentity => 2,
        }
    }

    /// The more restrictive of the two.
    pub open spec fn higher(self, other: Confidentiality) -> Confidentiality {
        if self.rank() >= other.rank() {
            self
        } else {
            other
        }
    }

    /// The name on the wire.
    pub open spec fn name(self) -> Seq<char> {
        match self {
            Confidentiality::Public => "public"@,
            Confidentiality::Private => "private"@,
            Confidentiality::UserIdentity => "user_identity"@,
        }
    }

    /// The more restrictive of the two.
    pub fn restrict(self, other: Confidentiality) -> (higher: Confidentiality)
        ensures
            higher == self.higher(other),
    {
        match (self, other) {
            (Confidentiality::UserIdentity, _) => self,
            (Confidentiality::Public, _) => other,
            (Confidentiality::Private, Confidentiality::UserIdentity) => other,
            (Confidentiality::Private, _) => self,
        }
    }

    /// Whether this is more restrictive than `maximum`.
    pub fn exceeds(self, maximum: Confidentiality) -> (exceeds: bool)
        ensures
            exceeds == (self.rank() > maximum.rank()),
    {
        match (self, maximum) {
            (Confidentiality::UserIdentity, Confidentiality::UserIdentity) => false,
            (Confidentiality::UserIdentity, _) => true,
            (Confidentiality::Private, Confidentiality::Public) => true,
            _ => false,
        }
    }

    fn wire_name(self) -> (name: String)
        ensures
            name@ == self.name(),
    {
        match self {
            Confidentiality::Public => "public".to_owned(),
            Confidentiality::Private => "private".to_owned(),
            Confidentiality::UserIdentity => "user_identity".to_owned(),
        }
    }
}

impl ContentLabelView {
    /// Trusted and public, with no metadata.
    pub open spec fn lowest() -> ContentLabelView {
        ContentLabelView {
            integrity: Integrity::Trusted,
            confidentiality: Confidentiality::Public,
            metadata: Seq::empty(),
        }
    }

    pub open spec fn untrusted(confidentiality: Confidentiality) -> ContentLabelView {
        ContentLabelView {
            integrity: Integrity::Untrusted,
            confidentiality,
            metadata: Seq::empty(),
        }
    }

    /// The more restrictive value on each axis, and the metadata of both.
    pub open spec fn join(self, other: ContentLabelView) -> ContentLabelView {
        ContentLabelView {
            integrity: self.integrity.higher(other.integrity),
            confidentiality: self.confidentiality.higher(other.confidentiality),
            metadata: merged(self.metadata, other.metadata),
        }
    }

    /// Whether this is at least as restrictive as `other` on both axes.
    pub open spec fn covers(self, other: ContentLabelView) -> bool {
        self.integrity.rank() >= other.integrity.rank() && self.confidentiality.rank()
            >= other.confidentiality.rank()
    }

    /// The two axes, as they are written in placeholders and events.
    pub open spec fn axes_entries(self) -> EntriesView {
        seq![
            ("confidentiality"@, JsonView::Text(self.confidentiality.name())),
            ("integrity"@, JsonView::Text(self.integrity.name())),
        ]
    }

    pub open spec fn axes_json(self) -> JsonView {
        JsonView::Object(self.axes_entries())
    }

    /// The label on the wire: the axes, and the metadata where there is any.
    pub open spec fn json(self) -> JsonView {
        JsonView::Object(
            if self.metadata.len() == 0 {
                self.axes_entries()
            } else {
                self.axes_entries().push(("metadata"@, JsonView::Object(self.metadata)))
            },
        )
    }
}

/// The name that a JSON value gives to a variant: a string, or an object with nothing but the
/// name and a null.
pub open spec fn variant_name(value: JsonView) -> Option<Seq<char>> {
    match value {
        JsonView::Text(name) => Some(name),
        JsonView::Object(entries) => if entries.len() == 1 && entries[0].1 == JsonView::Null {
            Some(entries[0].0)
        } else {
            None
        },
        _ => None,
    }
}

pub open spec fn integrity_of_json(value: JsonView) -> Option<Integrity> {
    match variant_name(value) {
        Some(name) => if name == "trusted"@ {
            Some(Integrity::Trusted)
        } else if name == "untrusted"@ {
            Some(Integrity::Untrusted)
        } else {
            None
        },
        None => None,
    }
}

pub open spec fn confidentiality_of_json(value: JsonView) -> Option<Confidentiality> {
    match variant_name(value) {
        Some(name) => if name == "public"@ {
            Some(Confidentiality::Public)
        } else if name == "private"@ {
            Some(Confidentiality::Private)
        } else if name == "user_identity"@ {
            Some(Confidentiality::UserIdentity)
        } else {
            None
        },
        None => None,
    }
}

/// The metadata of a label: an object, or nothing where it is null or left out.
pub open spec fn metadata_of_json(value: Option<JsonView>) -> Option<EntriesView> {
    match value {
        None => Some(Seq::empty()),
        Some(JsonView::Null) => Some(Seq::empty()),
        Some(JsonView::Object(entries)) => Some(entries),
        Some(_) => None,
    }
}

/// A label from its three parts, where each of them is well-formed.
pub open spec fn label_of_parts(
    integrity: Option<JsonView>,
    confidentiality: Option<JsonView>,
    metadata: Option<JsonView>,
) -> Option<ContentLabelView> {
    match (integrity, confidentiality) {
        (Some(integrity), Some(confidentiality)) => match (
            integrity_of_json(integrity),
            confidentiality_of_json(confidentiality),
            metadata_of_json(metadata),
        ) {
            (Some(integrity), Some(confidentiality), Some(metadata)) => Some(
                ContentLabelView { integrity, confidentiality, metadata },
            ),
            _ => None,
        },
        _ => None,
    }
}

/// Whether every key is one of a label's fields.
pub open spec fn only_label_keys(entries: EntriesView) -> bool {
    forall|i: int|
        0 <= i < entries.len() ==> {
            ||| (#[trigger] entries[i]).0 == "integrity"@
            ||| entries[i].0 == "confidentiality"@
            ||| entries[i].0 == "metadata"@
        }
}

/// The label that a JSON value stands for: an object with both axes and no other field than
/// the metadata, or an array of the fields in order.
pub open spec fn label_of_json(value: JsonView) -> Option<ContentLabelView> {
    match value {
        JsonView::Object(entries) => if only_label_keys(entries) {
            label_of_parts(
                lookup(entries, "integrity"@),
                lookup(entries, "confidentiality"@),
                lookup(entries, "metadata"@),
            )
        } else {
            None
        },
        JsonView::Array(items) => if items.len() == 2 {
            label_of_parts(Some(items[0]), Some(items[1]), None)
        } else if items.len() == 3 {
            label_of_parts(Some(items[0]), Some(items[1]), Some(items[2]))
        } else {
            None
        },
        _ => None,
    }
}

fn read_variant(value: &Json) -> (name: Option<&String>)
    ensures
        match name {
            Some(name) => variant_name(value@) == Some(name@),
            None => variant_name(value@) is None,
        },
{
    match value {
        Json::Text(name) => Some(name),
        Json::Object(entries) => {
            if entries.len() == 1 {
                assert(entries_view(entries@)[0] == (entries@[0].0@, entries@[0].1@));
                match &entries[0].1 {
                    Json::Null => Some(&entries[0].0),
                    _ => None,
                }
            } else {
                None
            }
        },
        _ => None,
    }
}

fn read_integrity(value: &Json) -> (integrity: Option<Integrity>)
    ensures
        integrity == integrity_of_json(value@),
{
    match read_variant(value) {
        Some(name) => if same_text(name.as_str(), "trusted") {
            Some(Integrity::Trusted)
        } else if same_text(name.as_str(), "untrusted") {
            Some(Integrity::Untrusted)
        } else {
            None
        },
        None => None,
    }
}

fn read_confidentiality(value: &Json) -> (confidentiality: Option<Confidentiality>)
    ensures
        confidentiality == confidentiality_of_json(value@),
{
    match read_variant(value) {
        Some(name) => if same_text(name.as_str(), "public") {
            Some(Confidentiality::Public)
        } else if same_text(name.as_str(), "private") {
            Some(Confidentiality::Private)
        } else if same_text(name.as_str(), "user_identity") {
            Some(Confidentiality::UserIdentity)
        } else {
            None
        },
        None => None,
    }
}

fn read_metadata(value: Option<&Json>) -> (metadata: Option<Entries>)
    ensures
        match metadata {
            Some(entries) => metadata_of_json(
                match value {
                    Some(value) => Some(value@),
                    None => None,
                },
            ) == Some(entries_view(entries@)),
            None => metadata_of_json(
                match value {
                    Some(value) => Some(value@),
                    None => None,
                },
            ) is None,
        },
{
    assert(entries_view(Seq::<(String, Json)>::empty()) =~= Seq::empty());
    match value {
        None => Some(Vec::new()),
        Some(Json::Null) => Some(Vec::new()),
        Some(Json::Object(entries)) => Some(copy_entries(entries)),
        Some(_) => None,
    }
}

fn read_parts(
    integrity: Option<&Json>,
    confidentiality: Option<&Json>,
    metadata: Option<&Json>,
) -> (label: Option<ContentLabel>)
    ensures
        option_view(label) == label_of_parts(
            match integrity {
                Some(value) => Some(value@),
                None => None,
            },
            match confidentiality {
                Some(value) => Some(value@),
                None => None,
            },
            match metadata {
                Some(value) => Some(value@),
                None => None,
            },
        ),
{
    let (integrity, confidentiality) = match (integrity, confidentiality) {
        (Some(integrity), Some(confidentiality)) => (
            read_integrity(integrity),
            read_confidentiality(confidentiality),
        ),
        _ => return None,
    };
    match (integrity, confidentiality, read_metadata(metadata)) {
        (Some(integrity), Some(confidentiality), Some(metadata)) => Some(
            ContentLabel { integrity, confidentiality, metadata },
        ),
        _ => None,
    }
}

impl ContentLabel {
    /// The more restrictive value on each axis. The metadata of both is kept; where both have
    /// a key, the value of `other` stays.
    pub fn join(&self, other: &Self) -> (joined: Self)
        ensures
            joined@ == self@.join(other@),
    {
        ContentLabel {
            integrity: self.integrity.restrict(other.integrity),
            confidentiality: self.confidentiality.restrict(other.confidentiality),
            metadata: merge_entries(&self.metadata, &other.metadata),
        }
    }

    /// Untrusted content of the given confidentiality.
    pub fn untrusted(confidentiality: Confidentiality) -> (label: Self)
        ensures
            label@ == ContentLabelView::untrusted(confidentiality),
    {
        let label = ContentLabel {
            integrity: Integrity::Untrusted,
            confidentiality,
            metadata: Vec::new(),
        };
        assert(label@ =~= ContentLabelView::untrusted(confidentiality));
        label
    }

    /// The label on the wire.
    pub fn to_json(&self) -> (value: Json)
        ensures
            value@ == self@.json(),
    {
        let mut entries: Entries = self.axes();
        if self.metadata.len() > 0 {
            let ghost before = entries_view(entries@);
            let metadata = Json::Object(copy_entries(&self.metadata));
            entries.push(entry("metadata", metadata));
            assert(entries_view(entries@) =~= before.push(
                ("metadata"@, JsonView::Object(self@.metadata)),
            ));
        }
        Json::Object(entries)
    }

    /// The two axes of the label, without its metadata.
    pub fn axes_json(&self) -> (value: Json)
        ensures
            value@ == self@.axes_json(),
    {
        Json::Object(self.axes())
    }

    fn axes(&self) -> (entries: Entries)
        ensures
            entries_view(entries@) == self@.axes_entries(),
    {
        let mut entries: Entries = Vec::new();
        entries.push(entry("confidentiality", Json::Text(self.confidentiality.wire_name())));
        entries.push(entry("integrity", Json::Text(self.integrity.wire_name())));
        assert(entries_view(entries@) =~= self@.axes_entries());
        entries
    }

    /// Reads a label off the wire.
    pub fn from_json(value: &Json) -> (label: Option<Self>)
        ensures
            option_view(label) == label_of_json(value@),
    {
        match value {
            Json::Object(entries) => {
                let mut i: usize = 0;
                while i < entries.len()
                    invariant
                        i <= entries.len(),
                        *value == Json::Object(*entries),
                        forall|j: int|
                            0 <= j < i ==> {
                                ||| (#[trigger] entries_view(entries@)[j]).0 == "integrity"@
                                ||| entries_view(entries@)[j].0 == "confidentiality"@
                                ||| entries_view(entries@)[j].0 == "metadata"@
                            },
                    decreases entries.len() - i,
                {
                    let key = entries[i].0.as_str();
                    if !same_text(key, "integrity") && !same_text(key, "confidentiality")
                        && !same_text(key, "metadata") {
                        assert(entries_view(entries@)[i as int].0 == key@);
                        return None;
                    }
                    i = i + 1;
                }
                read_parts(
                    lookup_entry(entries, "integrity"),
                    lookup_entry(entries, "confidentiality"),
                    lookup_entry(entries, "metadata"),
                )
            },
            Json::Array(items) => {
                if items.len() == 2 {
                    read_parts(Some(&items[0]), Some(&items[1]), None)
                } else if items.len() == 3 {
                    read_parts(Some(&items[0]), Some(&items[1]), Some(&items[2]))
                } else {
                    None
                }
            },
            _ => None,
        }
    }
}

impl Clone for ContentLabel {
    fn clone(&self) -> (copy: Self)
        ensures
            copy@ == self@,
    {
        ContentLabel {
            integrity: self.integrity,
            confidentiality: self.confidentiality,
            metadata: copy_entries(&self.metadata),
        }
    }
}

impl Default for ContentLabel {
    fn default() -> (label: Self)
        ensures
            label@ == ContentLabelView::lowest(),
    {
        let label = ContentLabel {
            integrity: Integrity::Trusted,
            confidentiality: Confidentiality::Public,
            metadata: Vec::new(),
        };
        assert(label@ =~= ContentLabelView::lowest());
        label
    }
}

} // verus!
