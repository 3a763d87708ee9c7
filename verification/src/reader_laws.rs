//! What reader labels mean, reader by reader.
use crate::label::{Decision, LabelView, ReadersView};
use vstd::prelude::*;

verus! {

/// Whether a name is among some readers.
pub open spec fn reads(readers: ReadersView, name: Seq<char>) -> bool {
    match readers {
        ReadersView::Everyone => true,
        ReadersView::Only(names) => names.contains(name),
    }
}

/// A value may go to a list of readers exactly where both labels are known in one realm that has
/// a name, the list is not empty, and everyone on it may read the value. It may go to everyone
/// exactly where everyone may read it.
pub proof fn permission_is_reader_by_reader(label: LabelView, audience: LabelView)
    ensures
        label.permits(audience) ==> label is Known && audience is Known && label->realm
            == audience->realm && label->realm.len() > 0,
        label is Known && audience is Known && label->realm == audience->realm
            && label->realm.len() > 0 ==> match audience->readers {
            ReadersView::Everyone => label.permits(audience) <==> label->readers
                == ReadersView::Everyone,
            ReadersView::Only(names) => label.permits(audience) <==> (exists|name: Seq<char>|
                names.contains(name)) && forall|name: Seq<char>|
                names.contains(name) ==> reads(label->readers, name),
        },
{
    if let (
        LabelView::Known { readers, .. },
        LabelView::Known { readers: ReadersView::Only(names), .. },
    ) = (label, audience) {
        if forall|name: Seq<char>| !names.contains(name) {
            assert(names =~= Set::empty());
        }
        if names != Set::<Seq<char>>::empty() {
            if forall|name: Seq<char>| !names.contains(name) {
                assert(names =~= Set::empty());
            }
        }
    }
}

/// A check says that it would allow exactly where the label permits the audience.
pub proof fn checks_say_what_is_permitted(label: LabelView, audience: LabelView)
    ensures
        label.decision(audience) == Decision::WouldAllow <==> label.permits(audience),
        label.decision(audience) == Decision::WouldDeny <==> !label.permits(audience),
{
}

/// The join of two known labels of one realm that has a name is known in that realm: someone may
/// read what depends on both exactly where they may read either, and everyone may only where
/// everyone may read both. Any other join is unknown.
pub proof fn joins_are_reader_by_reader(left: LabelView, right: LabelView, name: Seq<char>)
    ensures
        ({
            let joined = left.join(right);
            let alike = left is Known && right is Known && left->realm == right->realm
                && left->realm.len() > 0;
            &&& joined is Known <==> alike
            &&& alike ==> {
                &&& joined->realm == left->realm
                &&& reads(joined->readers, name) <==> reads(left->readers, name) && reads(
                    right->readers,
                    name,
                )
                &&& joined->readers == ReadersView::Everyone <==> left->readers
                    == ReadersView::Everyone && right->readers == ReadersView::Everyone
            }
        }),
{
}

/// Normalizing leaves a label with a realm as it is, and makes any other unknown.
pub proof fn labels_without_a_realm_are_unknown(label: LabelView)
    ensures
        label is Known && label->realm.len() > 0 ==> label.normalized() == label,
        label is Known && label->realm.len() == 0 ==> label.normalized() == LabelView::Unknown,
        label == LabelView::Unknown ==> label.normalized() == LabelView::Unknown,
{
}

} // verus!
