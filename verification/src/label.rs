//! Reader-set labels: who may read a value, within a realm.
use crate::text::{
    lemma_text_lt_irreflexive, lemma_text_lt_total, lemma_text_lt_transitive, same_text,
    text_less, text_lt,
};
use vstd::prelude::*;

verus! {

/// Who may read a value. Of an unknown label nothing is permitted.
#[derive(Debug, PartialEq, Eq)]
pub enum Label {
    Unknown,
    Known { realm: String, readers: Readers },
}

/// The permitted readers within a realm.
#[derive(Debug, PartialEq, Eq)]
pub enum Readers {
    Everyone,
    Only(ReaderSet),
}

/// A set of reader names, kept in ascending order with no name twice.
#[derive(Debug, PartialEq, Eq)]
pub struct ReaderSet {
    names: Vec<String>,
}

/// What a check of an audience comes to. Nothing is enforced.
#[derive(Clone, Copy, Debug, PartialEq, Eq, Structural)]
pub enum Decision {
    WouldAllow,
    WouldDeny,
}

/// What a label stands for.
pub enum LabelView {
    Unknown,
    Known { realm: Seq<char>, readers: ReadersView },
}

/// What the readers of a label stand for.
pub enum ReadersView {
    Everyone,
    Only(Set<Seq<char>>),
}

/// Each name comes before those after it.
pub open spec fn ascending(names: Seq<String>) -> bool {
    forall|i: int, j: int|
        0 <= i < j < names.len() ==> text_lt(#[trigger] names[i]@, #[trigger] names[j]@)
}

/// The set of the names listed.
pub open spec fn name_set(names: Seq<String>) -> Set<Seq<char>> {
    Set::new(|name: Seq<char>| exists|i: int| 0 <= i < names.len() && #[trigger] names[i]@ == name)
}

impl View for ReaderSet {
    type V = Set<Seq<char>>;

    closed spec fn view(&self) -> Set<Seq<char>> {
        name_set(self.names@)
    }
}

impl View for Readers {
    type V = ReadersView;

    open spec fn view(&self) -> ReadersView {
        match self {
            Readers::Everyone => ReadersView::Everyone,
            Readers::Only(names) => ReadersView::Only(names@),
        }
    }
}

impl View for Label {
    type V = LabelView;

    open spec fn view(&self) -> LabelView {
        match self {
            Label::Unknown => LabelView::Unknown,
            Label::Known { realm, readers } => LabelView::Known {
                realm: realm@,
                readers: readers@,
            },
        }
    }
}

impl LabelView {
    /// A label without a realm is unknown.
    pub open spec fn normalized(self) -> LabelView {
        match self {
            LabelView::Known { realm, .. } => if realm.len() > 0 {
                self
            } else {
                LabelView::Unknown
            },
            LabelView::Unknown => LabelView::Unknown,
        }
    }

    /// The label of what depends on both: unknown where either is or where the realms differ,
    /// else the readers that both permit.
    pub open spec fn join(self, other: LabelView) -> LabelView {
        match (self, other) {
            (
                LabelView::Known { realm, readers },
                LabelView::Known { realm: other_realm, readers: other_readers },
            ) => if realm.len() > 0 && realm == other_realm {
                LabelView::Known { realm, readers: readers.meet(other_readers) }
            } else {
                LabelView::Unknown
            },
            _ => LabelView::Unknown,
        }
    }

    /// Whether a value with this label may go to all of `audience`: both known in one realm,
    /// and nobody in the audience who is not a permitted reader.
    pub open spec fn permits(self, audience: LabelView) -> bool {
        match (self, audience) {
            (
                LabelView::Known { realm, readers },
                LabelView::Known { realm: audience_realm, readers: audience_readers },
            ) => realm.len() > 0 && realm == audience_realm && readers.cover(audience_readers),
            _ => false,
        }
    }

    /// The outcome of a check of `audience`.
    pub open spec fn decision(self, audience: LabelView) -> Decision {
        if self.permits(audience) {
            Decision::WouldAllow
        } else {
            Decision::WouldDeny
        }
    }
}

impl ReadersView {
    /// The readers that both permit.
    pub open spec fn meet(self, other: ReadersView) -> ReadersView {
        match (self, other) {
            (ReadersView::Everyone, _) => other,
            (_, ReadersView::Everyone) => self,
            (ReadersView::Only(left), ReadersView::Only(right)) => ReadersView::Only(
                left.intersect(right),
            ),
        }
    }

    /// Whether these readers hold all of a non-empty audience.
    pub open spec fn cover(self, audience: ReadersView) -> bool {
        match (self, audience) {
            (ReadersView::Everyone, ReadersView::Everyone) => true,
            (ReadersView::Only(_), ReadersView::Everyone) => false,
            (ReadersView::Everyone, ReadersView::Only(names)) => names != Set::<Seq<char>>::empty(),
            (ReadersView::Only(permitted), ReadersView::Only(names)) => names != Set::<
                Seq<char>,
            >::empty() && names.subset_of(permitted),
        }
    }
}

/// Copies the names.
fn copy_names(names: &Vec<String>) -> (copies: Vec<String>)
    ensures
        copies@ == names@,
{
    let mut copies: Vec<String> = Vec::new();
    let mut i: usize = 0;
    while i < names.len()
        invariant
            i <= names.len(),
            copies@ == names@.take(i as int),
        decreases names.len() - i,
    {
        copies.push(names[i].clone());
        i = i + 1;
        assert(copies@ =~= names@.take(i as int));
    }
    assert(names@.take(i as int) =~= names@);
    copies
}

/// Puts a name into its place among ascending names.
fn insert_name(names: &mut Vec<String>, name: &str)
    requires
        ascending(old(names)@),
    ensures
        ascending(final(names)@),
        name_set(final(names)@) == name_set(old(names)@).insert(name@),
{
    let mut i: usize = 0;
    while i < names.len() && text_less(names[i].as_str(), name)
        invariant
            i <= names.len(),
            forall|j: int| 0 <= j < i ==> text_lt(#[trigger] names@[j]@, name@),
        decreases names.len() - i,
    {
        i = i + 1;
    }
    let ghost before = names@;
    if i < names.len() && same_text(names[i].as_str(), name) {
        assert(before[i as int]@ == name@);
        assert(name_set(before) =~= name_set(before).insert(name@));
        return;
    }
    let owned = name.to_owned();
    names.insert(i, owned);
    proof {
        assert forall|a: int, b: int| 0 <= a < b < names@.len() implies text_lt(
            #[trigger] names@[a]@,
            #[trigger] names@[b]@,
        ) by {
            if a < i && b == i {
                assert(names@[a] == before[a]);
            } else if a == i {
                assert(names@[b] == before[b - 1]);
                lemma_text_lt_total(name@, before[i as int]@);
                if b - 1 > i {
                    assert(text_lt(before[i as int]@, before[b - 1]@));
                    lemma_text_lt_transitive(name@, before[i as int]@, before[b - 1]@);
                }
            } else {
                let p = if a < i { a } else { a - 1 };
                let q = if b < i { b } else { b - 1 };
                assert(names@[a] == before[p] && names@[b] == before[q]);
            }
        }
        assert forall|n: Seq<char>| name_set(names@).contains(n) == name_set(before).insert(
            name@,
        ).contains(n) by {
            if name_set(names@).contains(n) {
                let k = choose|k: int| 0 <= k < names@.len() && #[trigger] names@[k]@ == n;
                if k != i {
                    let p = if k < i { k } else { k - 1 };
                    assert(before[p]@ == n);
                }
            }
            if name_set(before).contains(n) {
                let k = choose|k: int| 0 <= k < before.len() && #[trigger] before[k]@ == n;
                let p = if k < i { k } else { k + 1 };
                assert(names@[p]@ == n);
            }
            if n == name@ {
                assert(names@[i as int]@ == n);
            }
        }
        assert(name_set(names@) =~= name_set(before).insert(name@));
    }
}

impl ReaderSet {
    #[verifier::type_invariant]
    spec fn is_ascending(self) -> bool {
        ascending(self.names@)
    }

    /// The set of the given names.
    pub fn of_names(listed: &[&str]) -> (readers: Self)
        ensures
            readers@ == Set::new(
                |name: Seq<char>| exists|i: int| 0 <= i < listed@.len() && #[trigger] listed@[i]@ == name,
            ),
    {
        let mut names: Vec<String> = Vec::new();
        let mut i: usize = 0;
        while i < listed.len()
            invariant
                i <= listed@.len(),
                ascending(names@),
                forall|name: Seq<char>| #[trigger]
                    name_set(names@).contains(name) <==> exists|k: int|
                        0 <= k < i && #[trigger] listed@[k]@ == name,
            decreases listed@.len() - i,
        {
            let ghost before = name_set(names@);
            insert_name(&mut names, listed[i]);
            proof {
                assert forall|name: Seq<char>| #[trigger]
                    name_set(names@).contains(name) <==> exists|k: int|
                        0 <= k < i + 1 && #[trigger] listed@[k]@ == name by {
                    if before.contains(name) {
                        let k = choose|k: int| 0 <= k < i && #[trigger] listed@[k]@ == name;
                        assert(0 <= k < i + 1 && listed@[k]@ == name);
                    }
                    if name == listed@[i as int]@ {
                        assert(0 <= i < i + 1 && listed@[i as int]@ == name);
                    }
                    if exists|k: int| 0 <= k < i + 1 && #[trigger] listed@[k]@ == name {
                        let k = choose|k: int| 0 <= k < i + 1 && #[trigger] listed@[k]@ == name;
                        if k < i {
                            assert(0 <= k < i && listed@[k]@ == name);
                            assert(before.contains(name));
                        }
                    }
                }
            }
            i = i + 1;
        }
        let readers = ReaderSet { names };
        assert(readers@ =~= Set::new(
            |name: Seq<char>| exists|k: int| 0 <= k < listed@.len() && #[trigger] listed@[k]@ == name,
        ));
        readers
    }

    /// The names, in ascending order.
    pub fn names(&self) -> (names: Vec<String>)
        ensures
            ascending(names@),
            name_set(names@) == self@,
    {
        proof {
            use_type_invariant(self);
        }
        copy_names(&self.names)
    }

    fn is_empty(&self) -> (empty: bool)
        ensures
            empty == (self@ == Set::<Seq<char>>::empty()),
    {
        proof {
            if self.names@.len() > 0 {
                assert(self@.contains(self.names@[0]@));
            } else {
                assert(self@ =~= Set::empty());
            }
        }
        self.names.len() == 0
    }

    fn contains(&self, name: &str) -> (found: bool)
        ensures
            found == self@.contains(name@),
    {
        let mut i: usize = 0;
        while i < self.names.len()
            invariant
                i <= self.names.len(),
                forall|j: int| 0 <= j < i ==> #[trigger] self.names@[j]@ != name@,
            decreases self.names.len() - i,
        {
            if same_text(self.names[i].as_str(), name) {
                assert(self.names@[i as int]@ == name@);
                return true;
            }
            i = i + 1;
        }
        false
    }

    fn intersection(&self, other: &Self) -> (common: Self)
        ensures
            common@ == self@.intersect(other@),
    {
        proof {
            use_type_invariant(self);
        }
        let mut names: Vec<String> = Vec::new();
        let mut i: usize = 0;
        let ghost mut from: Seq<int> = Seq::empty();
        while i < self.names.len()
            invariant
                i <= self.names.len(),
                ascending(self.names@),
                from.len() == names@.len(),
                forall|k: int|
                    0 <= k < from.len() ==> 0 <= #[trigger] from[k] < i && names@[k]
                        == self.names@[from[k]] && other@.contains(names@[k]@),
                forall|k: int, l: int| 0 <= k < l < from.len() ==> #[trigger] from[k] < #[trigger] from[l],
                forall|j: int|
                    0 <= j < i && other@.contains(#[trigger] self.names@[j]@) ==> name_set(
                        names@,
                    ).contains(self.names@[j]@),
            decreases self.names.len() - i,
        {
            if other.contains(self.names[i].as_str()) {
                let ghost before = names@;
                names.push(self.names[i].clone());
                proof {
                    from = from.push(i as int);
                    assert forall|j: int|
                        0 <= j < i + 1 && other@.contains(
                            #[trigger] self.names@[j]@,
                        ) implies name_set(names@).contains(self.names@[j]@) by {
                        if j < i {
                            let k = choose|k: int|
                                0 <= k < before.len() && #[trigger] before[k]@ == self.names@[j]@;
                            assert(names@[k]@ == self.names@[j]@);
                        } else {
                            assert(names@[before.len() as int]@ == self.names@[j]@);
                        }
                    }
                }
            }
            i = i + 1;
        }
        assert(ascending(names@)) by {
            assert forall|a: int, b: int| 0 <= a < b < names@.len() implies text_lt(
                #[trigger] names@[a]@,
                #[trigger] names@[b]@,
            ) by {
                assert(from[a] < from[b]);
                assert(text_lt(self.names@[from[a]]@, self.names@[from[b]]@));
            }
        }
        let common = ReaderSet { names };
        assert(common@ =~= self@.intersect(other@)) by {
            assert forall|n: Seq<char>| common@.contains(n) == self@.intersect(other@).contains(n) by {
                if common@.contains(n) {
                    let k = choose|k: int| 0 <= k < names@.len() && #[trigger] names@[k]@ == n;
                    assert(0 <= from[k] < i);
                    assert(self.names@[from[k]]@ == n);
                }
                if self@.contains(n) && other@.contains(n) {
                    let j = choose|j: int| 0 <= j < self.names@.len() && #[trigger] self.names@[j]@ == n;
                    assert(other@.contains(self.names@[j]@));
                }
            }
        }
        common
    }

    fn is_subset(&self, other: &Self) -> (subset: bool)
        ensures
            subset == self@.subset_of(other@),
    {
        let mut i: usize = 0;
        while i < self.names.len()
            invariant
                i <= self.names.len(),
                forall|j: int| 0 <= j < i ==> other@.contains(#[trigger] self.names@[j]@),
            decreases self.names.len() - i,
        {
            if !other.contains(self.names[i].as_str()) {
                assert(self@.contains(self.names@[i as int]@));
                return false;
            }
            i = i + 1;
        }
        assert forall|n: Seq<char>| self@.contains(n) implies other@.contains(n) by {
            let j = choose|j: int| 0 <= j < self.names@.len() && #[trigger] self.names@[j]@ == n;
            assert(other@.contains(self.names@[j]@));
        }
        true
    }
}

impl Clone for ReaderSet {
    fn clone(&self) -> (copy: Self)
        ensures
            copy@ == self@,
    {
        proof {
            use_type_invariant(self);
        }
        ReaderSet { names: copy_names(&self.names) }
    }
}

impl Clone for Readers {
    fn clone(&self) -> (copy: Self)
        ensures
            copy@ == self@,
    {
        match self {
            Readers::Everyone => Readers::Everyone,
            Readers::Only(names) => Readers::Only(names.clone()),
        }
    }
}

impl Clone for Label {
    fn clone(&self) -> (copy: Self)
        ensures
            copy@ == self@,
    {
        match self {
            Label::Unknown => Label::Unknown,
            Label::Known { realm, readers } => Label::Known {
                realm: realm.clone(),
                readers: readers.clone(),
            },
        }
    }
}

impl Default for Label {
    /// Nothing is known of a value until a label is given.
    fn default() -> (label: Self)
        ensures
            label@ == LabelView::Unknown,
    {
        Label::Unknown
    }
}

impl Label {
    /// The label that permits the given readers in `realm`; unknown where `realm` is empty.
    pub fn readers(realm: &str, readers: &[&str]) -> (label: Self)
        ensures
            label@ == (LabelView::Known {
                realm: realm@,
                readers: ReadersView::Only(
                    Set::new(
                        |name: Seq<char>|
                            exists|i: int| 0 <= i < readers@.len() && #[trigger] readers@[i]@ == name,
                    ),
                ),
            }).normalized(),
    {
        let names = ReaderSet::of_names(readers);
        Label::Known { realm: realm.to_owned(), readers: Readers::Only(names) }.normalized()
    }

    /// The label itself where it has a realm, else unknown.
    pub fn normalized(&self) -> (label: Self)
        ensures
            label@ == self@.normalized(),
    {
        match self {
            Label::Known { realm, .. } => if !realm.as_str().is_empty() {
                self.clone()
            } else {
                Label::Unknown
            },
            Label::Unknown => Label::Unknown,
        }
    }

    /// The label of what depends on both values.
    pub fn join(&self, other: &Self) -> (joined: Self)
        ensures
            joined@ == self@.join(other@),
    {
        match (self, other) {
            (
                Label::Known { realm, readers },
                Label::Known { realm: other_realm, readers: other_readers },
            ) => {
                if realm.as_str().is_empty() || !same_text(realm.as_str(), other_realm.as_str()) {
                    return Label::Unknown;
                }
                let common = match (readers, other_readers) {
                    (Readers::Everyone, _) => other_readers.clone(),
                    (_, Readers::Everyone) => readers.clone(),
                    (Readers::Only(left), Readers::Only(right)) => Readers::Only(
                        left.intersection(right),
                    ),
                };
                Label::Known { realm: realm.clone(), readers: common }
            },
            _ => Label::Unknown,
        }
    }

    /// Whether a value with this label would be allowed to all of `audience`.
    pub fn check_audience(&self, audience: &Self) -> (decision: Decision)
        ensures
            decision == self@.decision(audience@),
    {
        let permitted = match (self, audience) {
            (
                Label::Known { realm, readers },
                Label::Known { realm: audience_realm, readers: audience_readers },
            ) => {
                if realm.as_str().is_empty() || !same_text(
                    realm.as_str(),
                    audience_realm.as_str(),
                ) {
                    false
                } else {
                    match (readers, audience_readers) {
                        (Readers::Everyone, Readers::Everyone) => true,
                        (Readers::Only(_), Readers::Everyone) => false,
                        (Readers::Everyone, Readers::Only(names)) => !names.is_empty(),
                        (Readers::Only(permitted), Readers::Only(names)) => !names.is_empty()
                            && names.is_subset(permitted),
                    }
                }
            },
            _ => false,
        };
        if permitted {
            Decision::WouldAllow
        } else {
            Decision::WouldDeny
        }
    }
}

/// Joining a label with itself gives the label, or unknown where it has no realm.
pub proof fn join_is_idempotent(label: LabelView)
    ensures
        label.join(label) == label.normalized(),
{
    match label {
        LabelView::Known { readers: ReadersView::Only(names), .. } => {
            assert(names.intersect(names) =~= names);
        },
        _ => {},
    }
}

/// The order of two labels in a join does not matter.
pub proof fn join_is_commutative(left: LabelView, right: LabelView)
    ensures
        left.join(right) == right.join(left),
{
    match (left, right) {
        (
            LabelView::Known { readers: ReadersView::Only(a), .. },
            LabelView::Known { readers: ReadersView::Only(b), .. },
        ) => {
            assert(a.intersect(b) =~= b.intersect(a));
        },
        _ => {},
    }
}

/// How three labels are grouped in a join does not matter.
pub proof fn join_is_associative(first: LabelView, second: LabelView, third: LabelView)
    ensures
        first.join(second).join(third) == first.join(second.join(third)),
{
    match (first, second, third) {
        (
            LabelView::Known { readers: ReadersView::Only(a), .. },
            LabelView::Known { readers: ReadersView::Only(b), .. },
            LabelView::Known { readers: ReadersView::Only(c), .. },
        ) => {
            assert(a.intersect(b).intersect(c) =~= a.intersect(b.intersect(c)));
        },
        _ => {},
    }
}

/// What is joined with an unknown label is unknown.
pub proof fn unknown_absorbs(label: LabelView)
    ensures
        label.join(LabelView::Unknown) == LabelView::Unknown,
        LabelView::Unknown.join(label) == LabelView::Unknown,
{
}

/// Joining with everyone in the same realm changes nothing.
pub proof fn everyone_is_neutral(realm: Seq<char>, readers: ReadersView)
    requires
        realm.len() > 0,
    ensures
        (LabelView::Known { realm, readers }).join(
            LabelView::Known { realm, readers: ReadersView::Everyone },
        ) == (LabelView::Known { realm, readers }),
{
}

/// Labels of different realms join to unknown.
pub proof fn realms_do_not_mix(left: LabelView, right: LabelView)
    requires
        left is Known,
        right is Known,
        left->realm != right->realm,
    ensures
        left.join(right) == LabelView::Unknown,
{
}

/// A join permits exactly the audiences that both labels permit: nothing is gained by it, and
/// what either denies stays denied.
pub proof fn join_permits_what_both_permit(
    left: LabelView,
    right: LabelView,
    audience: LabelView,
)
    ensures
        left.join(right).permits(audience) == (left.permits(audience) && right.permits(audience)),
{
    match (left, right, audience) {
        (
            LabelView::Known { readers: ReadersView::Only(a), .. },
            LabelView::Known { readers: ReadersView::Only(b), .. },
            LabelView::Known { readers: ReadersView::Only(names), .. },
        ) => {
            assert(names.subset_of(a.intersect(b)) == (names.subset_of(a) && names.subset_of(b)));
        },
        _ => {},
    }
}

/// A label without readers permits no audience, and an audience without readers is denied by
/// every label.
pub proof fn nobody_is_denied(realm: Seq<char>, label: LabelView)
    ensures
        !(LabelView::Known { realm, readers: ReadersView::Only(Set::empty()) }).permits(label),
        !label.permits(LabelView::Known { realm, readers: ReadersView::Only(Set::empty()) }),
{
    match label {
        LabelView::Known { readers: ReadersView::Only(names), .. } => {
            if names.subset_of(Set::empty()) {
                assert(names =~= Set::empty());
            }
        },
        _ => {},
    }
}

/// An unknown label permits nothing, and nothing is permitted to an unknown audience.
pub proof fn unknown_is_denied(label: LabelView)
    ensures
        !LabelView::Unknown.permits(label),
        !label.permits(LabelView::Unknown),
{
}

/// Readers are listed in one order only: two sets with the same names list them alike.
pub proof fn names_are_canonical(left: Seq<String>, right: Seq<String>)
    requires
        ascending(left),
        ascending(right),
        name_set(left) == name_set(right),
    ensures
        left.len() == right.len(),
        forall|i: int| 0 <= i < left.len() ==> #[trigger] left[i]@ == right[i]@,
    decreases left.len(),
{
    if left.len() == 0 {
        if right.len() > 0 {
            assert(name_set(right).contains(right[0]@));
        }
    } else if right.len() == 0 {
        assert(name_set(left).contains(left[0]@));
    } else {
        lemma_same_last(left, right);
        let l = left.drop_last();
        let r = right.drop_last();
        assert forall|n: Seq<char>| name_set(l).contains(n) == name_set(r).contains(n) by {
            lemma_drop_last_names(left, n);
            lemma_drop_last_names(right, n);
        }
        assert(name_set(l) =~= name_set(r));
        names_are_canonical(l, r);
        assert forall|i: int| 0 <= i < left.len() implies #[trigger] left[i]@ == right[i]@ by {
            if i < l.len() {
                assert(l[i]@ == r[i]@);
            }
        }
    }
}

proof fn lemma_drop_last_names(names: Seq<String>, name: Seq<char>)
    requires
        ascending(names),
        names.len() > 0,
    ensures
        name_set(names.drop_last()).contains(name) == (name_set(names).contains(name) && name
            != names.last()@),
{
    let rest = names.drop_last();
    if name_set(rest).contains(name) {
        let i = choose|i: int| 0 <= i < rest.len() && #[trigger] rest[i]@ == name;
        assert(names[i]@ == name);
        assert(text_lt(names[i]@, names[names.len() - 1]@));
        lemma_text_lt_irreflexive(name);
    }
    if name_set(names).contains(name) && name != names.last()@ {
        let i = choose|i: int| 0 <= i < names.len() && #[trigger] names[i]@ == name;
        assert(rest[i]@ == name);
    }
}

proof fn lemma_same_last(left: Seq<String>, right: Seq<String>)
    requires
        ascending(left),
        ascending(right),
        name_set(left) == name_set(right),
        left.len() > 0,
        right.len() > 0,
    ensures
        left.last()@ == right.last()@,
{
    assert(name_set(left).contains(left[left.len() - 1]@));
    assert(name_set(right).contains(right[right.len() - 1]@));
    let i = choose|i: int| 0 <= i < right.len() && #[trigger] right[i]@ == left.last()@;
    let j = choose|j: int| 0 <= j < left.len() && #[trigger] left[j]@ == right.last()@;
    if i < right.len() - 1 && j < left.len() - 1 {
        assert(text_lt(right[i]@, right[right.len() - 1]@));
        assert(text_lt(left[j]@, left[left.len() - 1]@));
        lemma_text_lt_transitive(left.last()@, right.last()@, left.last()@);
        lemma_text_lt_irreflexive(left.last()@);
    }
}

} // verus!
