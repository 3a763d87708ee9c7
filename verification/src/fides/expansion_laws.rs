//! What becomes of arguments that forward variables.
use crate::fides::laws::{forwarding_object, forwarding_text, forwards};
use crate::fides::references::{
    bracketed, expanded, expanded_entries, expanded_items, reference_in, Variables,
};
use crate::json::{lookup, EntriesView, JsonView};
use crate::text::has_prefix;
use vstd::prelude::*;

verus! {

/// A value stands for a variable if and only if it is one of the two ways to forward one: the
/// object with nothing but the reference, or the whole text that is the reference in brackets,
/// which must begin like a reference.
pub proof fn values_stand_for_variables_in_two_ways(value: JsonView, reference: Seq<char>)
    ensures
        reference_in(value) == Some(reference) <==> {
            ||| value == forwarding_object(reference)
            ||| value == forwarding_text(reference) && has_prefix(reference, "var_"@)
        },
{
    reveal_strlit("[");
    reveal_strlit("]");
    reveal_with_fuel(lookup, 2);
    let whole = "["@ + reference + "]"@;
    assert(whole.subrange(1, whole.len() - 1) =~= reference);
    match value {
        JsonView::Text(text) => {
            if bracketed(text) == Some(reference) {
                assert(text =~= whole);
            }
        },
        JsonView::Object(entries) => {
            if reference_in(value) == Some(reference) {
                assert(entries =~= seq![("$fides_variable"@, JsonView::Text(reference))]);
            }
            if value == forwarding_object(reference) {
                assert(entries[0] == ("$fides_variable"@, JsonView::Text(reference)));
            }
        },
        _ => {},
    }
}

/// The items of an array are expanded each by itself: there are as many, and each is what it
/// becomes alone, whatever stands beside it.
pub proof fn items_are_expanded_by_themselves(
    variables: Variables,
    items: Seq<JsonView>,
    depth: nat,
)
    requires
        depth <= 33,
    ensures
        expanded_items(variables, items, depth) is Some <==> forall|i: int|
            0 <= i < items.len() ==> expanded(variables, #[trigger] items[i], depth) is Some,
        expanded_items(variables, items, depth) matches Some((passed, _)) ==> {
            &&& passed.len() == items.len()
            &&& forall|i: int|
                0 <= i < items.len() ==> expanded(variables, #[trigger] items[i], depth)->Some_0.0
                    == passed[i]
        },
    decreases items.len(),
{
    if items.len() > 0 {
        let rest = items.drop_last();
        items_are_expanded_by_themselves(variables, rest, depth);
        assert(forall|i: int| 0 <= i < rest.len() ==> #[trigger] items[i] == rest[i]);
        assert(forall|i: int| 0 <= i < rest.len() ==> items[i] == #[trigger] rest[i]);
        assert(items[items.len() - 1] == items.last());
    }
}

/// The entries of an object are expanded each by itself: there are as many, with the same keys
/// in the same order, and each value is what it becomes alone, whatever stands beside it. The
/// same holds of the arguments of a call.
pub proof fn entries_are_expanded_by_themselves(
    variables: Variables,
    entries: EntriesView,
    depth: nat,
)
    requires
        depth <= 33,
    ensures
        expanded_entries(variables, entries, depth) is Some <==> forall|i: int|
            0 <= i < entries.len() ==> expanded(variables, (#[trigger] entries[i]).1, depth)
                is Some,
        expanded_entries(variables, entries, depth) matches Some((passed, _)) ==> {
            &&& passed.len() == entries.len()
            &&& forall|i: int|
                0 <= i < entries.len() ==> {
                    &&& passed[i].0 == (#[trigger] entries[i]).0
                    &&& expanded(variables, entries[i].1, depth)->Some_0.0 == passed[i].1
                }
        },
    decreases entries.len(),
{
    if entries.len() > 0 {
        let rest = entries.drop_last();
        entries_are_expanded_by_themselves(variables, rest, depth);
        assert(forall|i: int| 0 <= i < rest.len() ==> #[trigger] entries[i] == rest[i]);
        assert(forall|i: int| 0 <= i < rest.len() ==> entries[i] == #[trigger] rest[i]);
        assert(entries[entries.len() - 1] == entries.last());
    }
}

/// What an array or an object becomes that stands for no variable: an array or an object of what
/// its parts become one level deeper. Anything else that stands for no variable is passed on as
/// it is. A variable is replaced by its payload, at every level that is allowed, and refused
/// where it is not known.
pub proof fn values_are_expanded_level_by_level(
    variables: Variables,
    value: JsonView,
    depth: nat,
)
    ensures
        depth > 32 ==> expanded(variables, value, depth) is None,
        depth <= 32 ==> (reference_in(value) matches Some(reference) ==> if variables.contains_key(
            reference,
        ) {
            expanded(variables, value, depth) == Some(
                (variables[reference].payload, seq![reference]),
            )
        } else {
            expanded(variables, value, depth) is None
        }),
        depth <= 32 && reference_in(value) is None ==> match value {
            JsonView::Array(items) => {
                &&& expanded(variables, value, depth) is Some <==> expanded_items(
                    variables,
                    items,
                    depth + 1,
                ) is Some
                &&& expanded(variables, value, depth) matches Some((passed, references)) ==> {
                    let inside = expanded_items(variables, items, depth + 1)->0;
                    passed == JsonView::Array(inside.0) && references == inside.1
                }
            },
            JsonView::Object(entries) => {
                &&& expanded(variables, value, depth) is Some <==> expanded_entries(
                    variables,
                    entries,
                    depth + 1,
                ) is Some
                &&& expanded(variables, value, depth) matches Some((passed, references)) ==> {
                    let inside = expanded_entries(variables, entries, depth + 1)->0;
                    passed == JsonView::Object(inside.0) && references == inside.1
                }
            },
            _ => expanded(variables, value, depth) == Some((value, Seq::<Seq<char>>::empty())),
        },
{
}

/// The references of two lists of arguments, one behind the other, are those of the one and
/// those of the other, and so is what is passed on.
pub proof fn expansions_concatenate(
    variables: Variables,
    first: EntriesView,
    second: EntriesView,
    depth: nat,
)
    requires
        depth <= 33,
    ensures
        expanded_entries(variables, first + second, depth) == (match (
            expanded_entries(variables, first, depth),
            expanded_entries(variables, second, depth),
        ) {
            (Some((passed, named)), Some((more, others))) => Some((passed + more, named + others)),
            _ => None,
        }),
    decreases second.len(),
{
    if second.len() == 0 {
        assert(first + second =~= first);
        if let Some((passed, named)) = expanded_entries(variables, first, depth) {
            assert(passed + Seq::empty() =~= passed);
            assert(named + Seq::empty() =~= named);
        }
    } else {
        let both = first + second;
        let rest = second.drop_last();
        assert(both.drop_last() =~= first + rest);
        assert(both.last() == second.last());
        expansions_concatenate(variables, first, rest, depth);
        match (
            expanded_entries(variables, first, depth),
            expanded_entries(variables, rest, depth),
            expanded(variables, second.last().1, depth),
        ) {
            (Some((passed, named)), Some((more, others)), Some((value, last))) => {
                let entry = (second.last().0, value);
                assert((passed + more).push(entry) =~= passed + more.push(entry));
                assert(named + others + last =~= named + (others + last));
            },
            _ => {},
        }
    }
}

/// The same of the items of an array.
pub proof fn item_expansions_concatenate(
    variables: Variables,
    first: Seq<JsonView>,
    second: Seq<JsonView>,
    depth: nat,
)
    requires
        depth <= 33,
    ensures
        expanded_items(variables, first + second, depth) == (match (
            expanded_items(variables, first, depth),
            expanded_items(variables, second, depth),
        ) {
            (Some((passed, named)), Some((more, others))) => Some((passed + more, named + others)),
            _ => None,
        }),
    decreases second.len(),
{
    if second.len() == 0 {
        assert(first + second =~= first);
        if let Some((passed, named)) = expanded_items(variables, first, depth) {
            assert(passed + Seq::empty() =~= passed);
            assert(named + Seq::empty() =~= named);
        }
    } else {
        let both = first + second;
        let rest = second.drop_last();
        assert(both.drop_last() =~= first + rest);
        assert(both.last() == second.last());
        item_expansions_concatenate(variables, first, rest, depth);
        match (
            expanded_items(variables, first, depth),
            expanded_items(variables, rest, depth),
            expanded(variables, second.last(), depth),
        ) {
            (Some((passed, named)), Some((more, others)), Some((value, last))) => {
                assert((passed + more).push(value) =~= passed + more.push(value));
                assert(named + others + last =~= named + (others + last));
            },
            _ => {},
        }
    }
}

/// One argument alone becomes what its value becomes, under its key, with the references of its
/// value.
pub proof fn one_argument_is_expanded_as_its_value(
    variables: Variables,
    key: Seq<char>,
    value: JsonView,
    depth: nat,
)
    requires
        depth <= 33,
    ensures
        expanded_entries(variables, seq![(key, value)], depth) == (match expanded(
            variables,
            value,
            depth,
        ) {
            Some((passed, references)) => Some((seq![(key, passed)], references)),
            None => None,
        }),
        expanded_items(variables, seq![value], depth) == (match expanded(variables, value, depth) {
            Some((passed, references)) => Some((seq![passed], references)),
            None => None,
        }),
{
    let entries = seq![(key, value)];
    let items = seq![value];
    assert(entries.drop_last() =~= Seq::empty());
    assert(items.drop_last() =~= Seq::empty());
    reveal_with_fuel(expanded_entries, 2);
    reveal_with_fuel(expanded_items, 2);
    if let Some((passed, references)) = expanded(variables, value, depth) {
        assert(Seq::empty().push((key, passed)) =~= seq![(key, passed)]);
        assert(Seq::empty().push(passed) =~= seq![passed]);
        assert(Seq::<Seq<char>>::empty() + references =~= references);
    }
}

proof fn lemma_forwarded_in_value(
    variables: Variables,
    value: JsonView,
    reference: Seq<char>,
    depth: nat,
)
    ensures
        expanded(variables, value, depth) matches Some((_, references)) ==> (
        references.contains(reference) <==> forwards(value, reference)),
    decreases 40 - depth, 0nat,
{
    if depth <= 32 && expanded(variables, value, depth) is Some {
        match reference_in(value) {
            Some(named) => {
                assert(seq![named][0] == named);
            },
            None => match value {
                JsonView::Array(items) => {
                    lemma_forwarded_in_items(variables, items, reference, depth + 1);
                },
                JsonView::Object(entries) => {
                    lemma_forwarded_in_entries(variables, entries, reference, depth + 1);
                },
                _ => {},
            },
        }
    }
}

proof fn lemma_contains_concat(left: Seq<Seq<char>>, right: Seq<Seq<char>>, name: Seq<char>)
    ensures
        (left + right).contains(name) <==> left.contains(name) || right.contains(name),
{
    if left.contains(name) {
        let i = left.index_of(name);
        assert((left + right)[i] == name);
    }
    if right.contains(name) {
        let i = right.index_of(name);
        assert((left + right)[left.len() + i] == name);
    }
}

proof fn lemma_forwarded_in_items(
    variables: Variables,
    items: Seq<JsonView>,
    reference: Seq<char>,
    depth: nat,
)
    ensures
        expanded_items(variables, items, depth) matches Some((_, references)) ==> (
        references.contains(reference) <==> exists|i: int|
            0 <= i < items.len() && forwards(#[trigger] items[i], reference)),
    decreases 40 - depth, items.len() + 1,
{
    if items.len() > 0 && depth <= 33 && expanded_items(variables, items, depth) is Some {
        let rest = items.drop_last();
        lemma_forwarded_in_items(variables, rest, reference, depth);
        lemma_forwarded_in_value(variables, items.last(), reference, depth);
        lemma_contains_concat(
            expanded_items(variables, rest, depth)->Some_0.1,
            expanded(variables, items.last(), depth)->Some_0.1,
            reference,
        );
        assert(forall|i: int| 0 <= i < rest.len() ==> #[trigger] items[i] == rest[i]);
        assert(forall|i: int| 0 <= i < rest.len() ==> items[i] == #[trigger] rest[i]);
        assert(items[items.len() - 1] == items.last());
    }
}

proof fn lemma_forwarded_in_entries(
    variables: Variables,
    entries: EntriesView,
    reference: Seq<char>,
    depth: nat,
)
    ensures
        expanded_entries(variables, entries, depth) matches Some((_, references)) ==> (
        references.contains(reference) <==> exists|i: int|
            0 <= i < entries.len() && forwards((#[trigger] entries[i]).1, reference)),
    decreases 40 - depth, entries.len() + 1,
{
    if entries.len() > 0 && depth <= 33 && expanded_entries(variables, entries, depth) is Some {
        let rest = entries.drop_last();
        lemma_forwarded_in_entries(variables, rest, reference, depth);
        lemma_forwarded_in_value(variables, entries.last().1, reference, depth);
        lemma_contains_concat(
            expanded_entries(variables, rest, depth)->Some_0.1,
            expanded(variables, entries.last().1, depth)->Some_0.1,
            reference,
        );
        assert(forall|i: int| 0 <= i < rest.len() ==> #[trigger] entries[i] == rest[i]);
        assert(forall|i: int| 0 <= i < rest.len() ==> entries[i] == #[trigger] rest[i]);
        assert(entries[entries.len() - 1] == entries.last());
    }
}

/// The references that are found in arguments are exactly those that some argument forwards, at
/// whatever depth.
pub proof fn references_are_those_forwarded(
    variables: Variables,
    arguments: EntriesView,
    reference: Seq<char>,
)
    ensures
        expanded_entries(variables, arguments, 0) matches Some((_, references)) ==> (
        references.contains(reference) <==> exists|i: int|
            0 <= i < arguments.len() && forwards((#[trigger] arguments[i]).1, reference)),
{
    lemma_forwarded_in_entries(variables, arguments, reference, 0);
}

/// Whether a value nests no deeper than so many levels and forwards no variable.
pub open spec fn plain_within(value: JsonView, levels: int) -> bool
    decreases value,
{
    &&& levels >= 0
    &&& reference_in(value) is None
    &&& match value {
        JsonView::Array(items) => forall|i: int|
            0 <= i < items.len() ==> plain_within(#[trigger] items[i], levels - 1),
        JsonView::Object(entries) => forall|i: int|
            0 <= i < entries.len() ==> plain_within((#[trigger] entries[i]).1, levels - 1),
        _ => true,
    }
}

proof fn lemma_plain_value(variables: Variables, value: JsonView, depth: nat)
    requires
        plain_within(value, 32 - depth),
    ensures
        expanded(variables, value, depth) == Some((value, Seq::<Seq<char>>::empty())),
    decreases 40 - depth, 0nat,
{
    match value {
        JsonView::Array(items) => {
            lemma_plain_items(variables, items, depth + 1);
        },
        JsonView::Object(entries) => {
            lemma_plain_entries(variables, entries, depth + 1);
        },
        _ => {},
    }
}

proof fn lemma_plain_items(variables: Variables, items: Seq<JsonView>, depth: nat)
    requires
        depth <= 33,
        forall|i: int|
            0 <= i < items.len() ==> plain_within(#[trigger] items[i], 32 - depth),
    ensures
        expanded_items(variables, items, depth) == Some((items, Seq::<Seq<char>>::empty())),
    decreases 40 - depth, items.len() + 1,
{
    if items.len() == 0 {
        assert(items =~= Seq::empty());
    } else {
        let rest = items.drop_last();
        assert(forall|i: int| 0 <= i < rest.len() ==> #[trigger] rest[i] == items[i]);
        lemma_plain_items(variables, rest, depth);
        assert(items[items.len() - 1] == items.last());
        lemma_plain_value(variables, items.last(), depth);
        assert(items =~= rest.push(items.last()));
        assert(Seq::<Seq<char>>::empty() + Seq::<Seq<char>>::empty() =~= Seq::empty());
    }
}

proof fn lemma_plain_entries(variables: Variables, entries: EntriesView, depth: nat)
    requires
        depth <= 33,
        forall|i: int|
            0 <= i < entries.len() ==> plain_within((#[trigger] entries[i]).1, 32 - depth),
    ensures
        expanded_entries(variables, entries, depth) == Some((entries, Seq::<Seq<char>>::empty())),
    decreases 40 - depth, entries.len() + 1,
{
    if entries.len() == 0 {
        assert(entries =~= Seq::empty());
    } else {
        let rest = entries.drop_last();
        assert(forall|i: int| 0 <= i < rest.len() ==> #[trigger] rest[i] == entries[i]);
        lemma_plain_entries(variables, rest, depth);
        assert(entries[entries.len() - 1] == entries.last());
        lemma_plain_value(variables, entries.last().1, depth);
        assert(entries =~= rest.push((entries.last().0, entries.last().1)));
        assert(Seq::<Seq<char>>::empty() + Seq::<Seq<char>>::empty() =~= Seq::empty());
    }
}

/// Arguments that forward no variable and nest within thirty-two levels are always passed on,
/// and passed on as they are, whatever the session holds.
pub proof fn plain_arguments_are_passed_on(variables: Variables, arguments: EntriesView)
    requires
        forall|i: int|
            0 <= i < arguments.len() ==> plain_within((#[trigger] arguments[i]).1, 32),
    ensures
        expanded_entries(variables, arguments, 0) == Some(
            (arguments, Seq::<Seq<char>>::empty()),
        ),
{
    lemma_plain_entries(variables, arguments, 0);
}

/// A value inside of so many arrays, each with nothing else in it.
pub open spec fn boxed(value: JsonView, levels: nat) -> JsonView
    decreases levels,
{
    if levels == 0 {
        value
    } else {
        JsonView::Array(seq![boxed(value, (levels - 1) as nat)])
    }
}

proof fn lemma_boxed(variables: Variables, value: JsonView, levels: nat, depth: nat)
    requires
        depth <= 32,
        expanded(variables, value, depth + levels) is Some || depth + levels > 32,
    ensures
        expanded(variables, boxed(value, levels), depth) is Some <==> depth + levels <= 32,
    decreases levels,
{
    if levels > 0 {
        let inner = boxed(value, (levels - 1) as nat);
        one_argument_is_expanded_as_its_value(variables, Seq::empty(), inner, depth + 1);
        if depth + 1 <= 32 {
            lemma_boxed(variables, value, (levels - 1) as nat, depth + 1);
        }
    }
}

/// Arguments may be nested thirty-two levels deep, and no deeper: a value in more arrays than
/// that is refused, and one in fewer is not refused for its depth.
pub proof fn nesting_is_limited(variables: Variables, value: JsonView, levels: nat)
    requires
        expanded(variables, value, levels) is Some || levels > 32,
    ensures
        expanded(variables, boxed(value, levels), 0) is Some <==> levels <= 32,
{
    lemma_boxed(variables, value, levels, 0);
}

} // verus!
