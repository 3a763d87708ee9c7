//! References to hidden variables in the arguments of calls.
use crate::fides::content_label::{ContentLabel, ContentLabelView};
use crate::fides::session::{StoredVariable, VariableView};
use crate::json::{
    copy_entries, entries_view, items_view, lookup, lookup_entry, Entries, EntriesView, Json,
    JsonView,
};
use crate::table::Table;
use crate::text::{has_prefix, same_text};
use crate::views::views;
use vstd::prelude::*;

verus! {

/// The tool that shows a hidden variable to the conversation.
pub const INSPECT_VARIABLE: &'static str = "fides__inspect_variable";

/// The tool that hands hidden variables to a model call of their own.
pub const QUARANTINED_LLM: &'static str = "fides__quarantined_llm";

/// How deep arguments may be nested.
pub const MAX_DEPTH: usize = 32;

/// How many variables one call may name.
pub const MAX_REFERENCES: usize = 32;

/// The variables of a session by reference.
pub type Variables = Map<Seq<char>, VariableView>;

/// The reference in a text that is nothing but a bracketed reference.
pub open spec fn bracketed(text: Seq<char>) -> Option<Seq<char>> {
    if text.len() >= 2 && text[0] == '[' && text.last() == ']' && has_prefix(
        text.subrange(1, text.len() - 1),
        "var_"@,
    ) {
        Some(text.subrange(1, text.len() - 1))
    } else {
        None
    }
}

/// The reference that a value stands for: an object with nothing but `$fides_variable`, or a
/// bracketed text.
pub open spec fn reference_in(value: JsonView) -> Option<Seq<char>> {
    match value {
        JsonView::Object(entries) => if entries.len() == 1 {
            match lookup(entries, "$fides_variable"@) {
                Some(JsonView::Text(reference)) => Some(reference),
                _ => None,
            }
        } else {
            None
        },
        JsonView::Text(text) => bracketed(text),
        _ => None,
    }
}

/// What a value becomes with its references replaced by what they stand for, and the
/// references in order. None where a reference is not known or the nesting too deep.
pub open spec fn expanded(variables: Variables, value: JsonView, depth: nat) -> Option<
    (JsonView, Seq<Seq<char>>),
>
    decreases 40 - depth, 0nat,
{
    if depth > MAX_DEPTH {
        None
    } else {
        match reference_in(value) {
            Some(reference) => if variables.contains_key(reference) {
                Some((variables[reference].payload, seq![reference]))
            } else {
                None
            },
            None => match value {
                JsonView::Array(items) => match expanded_items(variables, items, depth + 1) {
                    Some((items, references)) => Some((JsonView::Array(items), references)),
                    None => None,
                },
                JsonView::Object(entries) => match expanded_entries(
                    variables,
                    entries,
                    depth + 1,
                ) {
                    Some((entries, references)) => Some((JsonView::Object(entries), references)),
                    None => None,
                },
                _ => Some((value, Seq::empty())),
            },
        }
    }
}

/// The items of an array with their references replaced.
pub open spec fn expanded_items(variables: Variables, items: Seq<JsonView>, depth: nat) -> Option<
    (Seq<JsonView>, Seq<Seq<char>>),
>
    decreases 40 - depth, items.len() + 1,
{
    if depth > MAX_DEPTH + 1 {
        None
    } else if items.len() == 0 {
        Some((Seq::empty(), Seq::empty()))
    } else {
        match (
            expanded_items(variables, items.drop_last(), depth),
            expanded(variables, items.last(), depth),
        ) {
            (Some((before, references)), Some((last, more))) => Some(
                (before.push(last), references + more),
            ),
            _ => None,
        }
    }
}

/// The entries of an object with the references in their values replaced.
pub open spec fn expanded_entries(
    variables: Variables,
    entries: EntriesView,
    depth: nat,
) -> Option<(EntriesView, Seq<Seq<char>>)>
    decreases 40 - depth, entries.len() + 1,
{
    if depth > MAX_DEPTH + 1 {
        None
    } else if entries.len() == 0 {
        Some((Seq::empty(), Seq::empty()))
    } else {
        match (
            expanded_entries(variables, entries.drop_last(), depth),
            expanded(variables, entries.last().1, depth),
        ) {
            (Some((before, references)), Some((last, more))) => Some(
                (before.push((entries.last().0, last)), references + more),
            ),
            _ => None,
        }
    }
}

/// The join of `start` with the labels of the named variables, in order.
pub open spec fn joined_labels(
    variables: Variables,
    start: ContentLabelView,
    references: Seq<Seq<char>>,
) -> ContentLabelView
    decreases references.len(),
{
    if references.len() == 0 {
        start
    } else {
        joined_labels(variables, start, references.drop_last()).join(
            variables[references.last()].label,
        )
    }
}

/// Whether every reference is known.
pub open spec fn all_known(variables: Variables, references: Seq<Seq<char>>) -> bool {
    forall|i: int| 0 <= i < references.len() ==> variables.contains_key(#[trigger] references[i])
}

/// Whether every key is one of two.
pub open spec fn only_keys(entries: EntriesView, first: Seq<char>, second: Seq<char>) -> bool {
    forall|i: int|
        0 <= i < entries.len() ==> (#[trigger] entries[i]).0 == first || entries[i].0 == second
}

/// The variable that a call of the inspection tool names.
pub open spec fn inspected_reference(arguments: EntriesView) -> Option<Seq<Seq<char>>> {
    if only_keys(arguments, "variable_id"@, "reason"@) {
        match lookup(arguments, "variable_id"@) {
            Some(JsonView::Text(reference)) => Some(seq![reference]),
            _ => None,
        }
    } else {
        None
    }
}

/// The texts of a list that holds nothing else.
pub open spec fn texts_of(items: Seq<JsonView>) -> Option<Seq<Seq<char>>> {
    if forall|i: int| 0 <= i < items.len() ==> (#[trigger] items[i]) is Text {
        Some(items.map_values(|item: JsonView| item->Text_0))
    } else {
        None
    }
}

/// The variables that a call of the quarantine tool names.
pub open spec fn quarantined_references(arguments: EntriesView) -> Option<Seq<Seq<char>>> {
    if only_keys(arguments, "variable_ids"@, "prompt"@) {
        match (lookup(arguments, "prompt"@), lookup(arguments, "variable_ids"@)) {
            (Some(JsonView::Text(_)), Some(JsonView::Array(items))) => texts_of(items),
            _ => None,
        }
    } else {
        None
    }
}

/// Whether a tool is one of the middleware's own.
pub open spec fn is_internal(name: Seq<char>) -> bool {
    name == INSPECT_VARIABLE@ || name == QUARANTINED_LLM@
}

/// What a call comes to once its references are looked up.
pub struct ResolvedView {
    /// The arguments, with forwarded variables in place.
    pub arguments: EntriesView,
    /// The payloads of the variables that one of the middleware's own tools works on.
    pub variables: Seq<JsonView>,
    /// The references in the call.
    pub references: Seq<Seq<char>>,
}

/// Looks up the references of a call. The middleware's own tools name between one and
/// thirty-two variables; any other tool may have variables forwarded to it.
pub open spec fn resolved(variables: Variables, name: Seq<char>, arguments: EntriesView) -> Option<
    ResolvedView,
> {
    if is_internal(name) {
        let named = if name == INSPECT_VARIABLE@ {
            inspected_reference(arguments)
        } else {
            quarantined_references(arguments)
        };
        match named {
            Some(references) => if 1 <= references.len() <= MAX_REFERENCES && all_known(
                variables,
                references,
            ) {
                Some(
                    ResolvedView {
                        arguments,
                        variables: references.map_values(
                            |reference: Seq<char>| variables[reference].payload,
                        ),
                        references,
                    },
                )
            } else {
                None
            },
            None => None,
        }
    } else {
        match expanded_entries(variables, arguments, 0) {
            Some((arguments, references)) => Some(
                ResolvedView { arguments, variables: Seq::empty(), references },
            ),
            None => None,
        }
    }
}

/// What a call comes to once its references are looked up.
pub(crate) struct Resolved {
    pub(crate) arguments: Entries,
    pub(crate) variables: Vec<Json>,
    pub(crate) references: Vec<String>,
}

impl View for Resolved {
    type V = ResolvedView;

    open(crate) spec fn view(&self) -> ResolvedView {
        ResolvedView {
            arguments: entries_view(self.arguments@),
            variables: items_view(self.variables@),
            references: views(self.references@),
        }
    }
}

/// The reference in a text that is nothing but a bracketed reference.
fn read_bracketed(text: &str) -> (reference: Option<String>)
    ensures
        crate::digest::text_view(reference) == bracketed(text@),
{
    let len: usize = text.unicode_len();
    if len < 2 || text.get_char(0) != '[' || text.get_char(len - 1) != ']' {
        return None;
    }
    let inner = text.substring_char(1, len - 1);
    let inner_len: usize = inner.unicode_len();
    proof {
        reveal_strlit("var_");
    }
    if inner_len >= 4 && same_text(inner.substring_char(0, 4), "var_") {
        Some(inner.to_owned())
    } else {
        None
    }
}

/// The reference that a value stands for.
fn read_reference(value: &Json) -> (reference: Option<String>)
    ensures
        crate::digest::text_view(reference) == reference_in(value@),
{
    match value {
        Json::Object(entries) => {
            if entries.len() == 1 {
                match lookup_entry(entries, "$fides_variable") {
                    Some(Json::Text(reference)) => Some(reference.clone()),
                    _ => None,
                }
            } else {
                None
            }
        },
        Json::Text(text) => read_bracketed(text.as_str()),
        _ => None,
    }
}

/// What an expansion gave, as far as contracts speak of it.
spec fn value_outcome(result: Option<(Json, Vec<String>)>) -> Option<(JsonView, Seq<Seq<char>>)> {
    match result {
        Some((value, references)) => Some((value@, views(references@))),
        None => None,
    }
}

/// Replaces the references in a value by what they stand for.
fn expand(variables: &Table<String, StoredVariable>, value: &Json, depth: usize) -> (result: Option<
    (Json, Vec<String>),
>)
    requires
        variables.wf(),
        depth <= MAX_DEPTH + 1,
    ensures
        value_outcome(result) == expanded(variables@, value@, depth as nat),
    decreases 40 - depth, 0nat,
{
    if depth > MAX_DEPTH {
        return None;
    }
    match read_reference(value) {
        Some(reference) => {
            let payload = match variables.get(&reference) {
                Some(variable) => variable.payload.clone(),
                None => return None,
            };
            let references = vec![reference];
            assert(views(references@) =~= seq![reference@]);
            Some((payload, references))
        },
        None => match value {
            Json::Array(items) => match expand_items(variables, items, depth + 1) {
                Some((items, references)) => Some((Json::Array(items), references)),
                None => None,
            },
            Json::Object(entries) => match expand_entries(variables, entries, depth + 1) {
                Some((entries, references)) => Some((Json::Object(entries), references)),
                None => None,
            },
            _ => {
                let references: Vec<String> = Vec::new();
                assert(views(references@) =~= Seq::<Seq<char>>::empty());
                Some((value.clone(), references))
            },
        },
    }
}

/// Puts `more` behind `list`.
fn append_references(list: &mut Vec<String>, more: Vec<String>)
    ensures
        views(final(list)@) == views(old(list)@) + views(more@),
{
    let mut more = more;
    let ghost behind = more@;
    list.append(&mut more);
    assert(views(list@) =~= views(old(list)@) + views(behind));
}

/// Replaces the references in the items of an array.
fn expand_items(variables: &Table<String, StoredVariable>, items: &Vec<Json>, depth: usize) -> (result:
    Option<(Vec<Json>, Vec<String>)>)
    requires
        variables.wf(),
        depth <= MAX_DEPTH + 1,
    ensures
        match result {
            Some((done, references)) => expanded_items(variables@, items_view(items@), depth as nat)
                == Some((items_view(done@), views(references@))),
            None => expanded_items(variables@, items_view(items@), depth as nat) is None,
        },
    decreases 40 - depth, 1nat,
{
    let ghost all = items_view(items@);
    let mut done: Vec<Json> = Vec::new();
    let mut references: Vec<String> = Vec::new();
    let mut i: usize = 0;
    proof {
        assert(all.take(0) =~= Seq::empty());
        assert(items_view(done@) =~= Seq::empty());
        assert(views(references@) =~= Seq::<Seq<char>>::empty());
    }
    while i < items.len()
        invariant
            i <= items.len(),
            variables.wf(),
            depth <= MAX_DEPTH + 1,
            all == items_view(items@),
            expanded_items(variables@, all.take(i as int), depth as nat) == Some(
                (items_view(done@), views(references@)),
            ),
        decreases items.len() - i,
    {
        let ghost before = items_view(done@);
        proof {
            assert(all.take(i + 1).drop_last() =~= all.take(i as int));
            assert(all.take(i + 1).last() == items@[i as int]@);
        }
        match expand(variables, &items[i], depth) {
            Some((value, more)) => {
                append_references(&mut references, more);
                done.push(value);
                assert(items_view(done@) =~= before.push(value@));
            },
            None => {
                proof {
                    lemma_items_fail(variables@, all, depth as nat, i + 1);
                }
                return None;
            },
        }
        i = i + 1;
    }
    assert(all.take(i as int) =~= all);
    Some((done, references))
}

/// Replaces the references in the values of an object.
fn expand_entries(
    variables: &Table<String, StoredVariable>,
    entries: &Entries,
    depth: usize,
) -> (result: Option<(Entries, Vec<String>)>)
    requires
        variables.wf(),
        depth <= MAX_DEPTH + 1,
    ensures
        match result {
            Some((done, references)) => expanded_entries(
                variables@,
                entries_view(entries@),
                depth as nat,
            ) == Some((entries_view(done@), views(references@))),
            None => expanded_entries(variables@, entries_view(entries@), depth as nat) is None,
        },
    decreases 40 - depth, 1nat,
{
    let ghost all = entries_view(entries@);
    let mut done: Entries = Vec::new();
    let mut references: Vec<String> = Vec::new();
    let mut i: usize = 0;
    proof {
        assert(all.take(0) =~= Seq::empty());
        assert(entries_view(done@) =~= Seq::empty());
        assert(views(references@) =~= Seq::<Seq<char>>::empty());
    }
    while i < entries.len()
        invariant
            i <= entries.len(),
            variables.wf(),
            depth <= MAX_DEPTH + 1,
            all == entries_view(entries@),
            expanded_entries(variables@, all.take(i as int), depth as nat) == Some(
                (entries_view(done@), views(references@)),
            ),
        decreases entries.len() - i,
    {
        let ghost before = entries_view(done@);
        proof {
            assert(all.take(i + 1).drop_last() =~= all.take(i as int));
            assert(all.take(i + 1).last() == (entries@[i as int].0@, entries@[i as int].1@));
        }
        match expand(variables, &entries[i].1, depth) {
            Some((value, more)) => {
                append_references(&mut references, more);
                done.push((entries[i].0.clone(), value));
                assert(entries_view(done@) =~= before.push((entries@[i as int].0@, value@)));
            },
            None => {
                proof {
                    lemma_entries_fail(variables@, all, depth as nat, i + 1);
                }
                return None;
            },
        }
        i = i + 1;
    }
    assert(all.take(i as int) =~= all);
    Some((done, references))
}

proof fn lemma_items_fail(variables: Variables, items: Seq<JsonView>, depth: nat, i: int)
    requires
        0 <= i <= items.len(),
        expanded_items(variables, items.take(i), depth) is None,
    ensures
        expanded_items(variables, items, depth) is None,
    decreases items.len() - i,
{
    if i == items.len() {
        assert(items.take(i) =~= items);
    } else {
        assert(items.take(i + 1).drop_last() =~= items.take(i));
        lemma_items_fail(variables, items, depth, i + 1);
    }
}

proof fn lemma_entries_fail(variables: Variables, entries: EntriesView, depth: nat, i: int)
    requires
        0 <= i <= entries.len(),
        expanded_entries(variables, entries.take(i), depth) is None,
    ensures
        expanded_entries(variables, entries, depth) is None,
    decreases entries.len() - i,
{
    if i == entries.len() {
        assert(entries.take(i) =~= entries);
    } else {
        assert(entries.take(i + 1).drop_last() =~= entries.take(i));
        lemma_entries_fail(variables, entries, depth, i + 1);
    }
}

/// Whether every key is one of two.
fn has_only_keys(entries: &Entries, first: &str, second: &str) -> (only: bool)
    ensures
        only == only_keys(entries_view(entries@), first@, second@),
{
    let mut i: usize = 0;
    while i < entries.len()
        invariant
            i <= entries.len(),
            forall|j: int|
                0 <= j < i ==> (#[trigger] entries_view(entries@)[j]).0 == first@ || entries_view(
                    entries@,
                )[j].0 == second@,
        decreases entries.len() - i,
    {
        let key = entries[i].0.as_str();
        if !same_text(key, first) && !same_text(key, second) {
            assert(entries_view(entries@)[i as int].0 == key@);
            return false;
        }
        i = i + 1;
    }
    true
}

/// What reading some references gave, as far as contracts speak of it.
spec fn references_view(references: Option<Vec<String>>) -> Option<Seq<Seq<char>>> {
    match references {
        Some(references) => Some(views(references@)),
        None => None,
    }
}

fn read_inspected(arguments: &Entries) -> (references: Option<Vec<String>>)
    ensures
        references_view(references) == inspected_reference(entries_view(arguments@)),
{
    if !has_only_keys(arguments, "variable_id", "reason") {
        return None;
    }
    match lookup_entry(arguments, "variable_id") {
        Some(Json::Text(reference)) => {
            let references = vec![reference.clone()];
            assert(views(references@) =~= seq![reference@]);
            Some(references)
        },
        _ => None,
    }
}

fn read_texts(items: &Vec<Json>) -> (texts: Option<Vec<String>>)
    ensures
        references_view(texts) == texts_of(items_view(items@)),
{
    let ghost all = items_view(items@);
    let mut texts: Vec<String> = Vec::new();
    let mut i: usize = 0;
    while i < items.len()
        invariant
            i <= items.len(),
            all == items_view(items@),
            texts.len() == i,
            forall|j: int| 0 <= j < i ==> (#[trigger] all[j]) is Text && texts@[j]@ == all[j]->Text_0,
        decreases items.len() - i,
    {
        match &items[i] {
            Json::Text(text) => {
                assert(all[i as int] == JsonView::Text(text@));
                texts.push(text.clone());
            },
            _ => {
                assert(!(all[i as int] is Text));
                return None;
            },
        }
        i = i + 1;
    }
    assert(views(texts@) =~= all.map_values(|item: JsonView| item->Text_0));
    Some(texts)
}

fn read_quarantined(arguments: &Entries) -> (references: Option<Vec<String>>)
    ensures
        references_view(references) == quarantined_references(entries_view(arguments@)),
{
    if !has_only_keys(arguments, "variable_ids", "prompt") {
        return None;
    }
    match (lookup_entry(arguments, "prompt"), lookup_entry(arguments, "variable_ids")) {
        (Some(Json::Text(_)), Some(Json::Array(items))) => read_texts(items),
        _ => None,
    }
}

/// The payloads of the named variables; none where one of them is not known.
fn read_payloads(
    variables: &Table<String, StoredVariable>,
    references: &Vec<String>,
) -> (payloads: Option<Vec<Json>>)
    requires
        variables.wf(),
    ensures
        match payloads {
            Some(payloads) => all_known(variables@, views(references@)) && items_view(payloads@)
                == views(references@).map_values(
                |reference: Seq<char>| variables@[reference].payload,
            ),
            None => !all_known(variables@, views(references@)),
        },
{
    let ghost all = views(references@);
    let mut payloads: Vec<Json> = Vec::new();
    let mut i: usize = 0;
    while i < references.len()
        invariant
            i <= references.len(),
            variables.wf(),
            all == views(references@),
            payloads.len() == i,
            forall|j: int|
                0 <= j < i ==> variables@.contains_key(#[trigger] all[j]) && payloads@[j]@
                    == variables@[all[j]].payload,
        decreases references.len() - i,
    {
        match variables.get(&references[i]) {
            Some(variable) => {
                payloads.push(variable.payload.clone());
            },
            None => {
                assert(!variables@.contains_key(all[i as int]));
                return None;
            },
        }
        i = i + 1;
    }
    assert(items_view(payloads@) =~= all.map_values(
        |reference: Seq<char>| variables@[reference].payload,
    ));
    Some(payloads)
}

/// The join of `start` with the labels of the named variables.
pub(crate) fn join_labels(
    variables: &Table<String, StoredVariable>,
    start: &ContentLabel,
    references: &Vec<String>,
) -> (label: ContentLabel)
    requires
        variables.wf(),
        all_known(variables@, views(references@)),
    ensures
        label@ == joined_labels(variables@, start@, views(references@)),
{
    let ghost all = views(references@);
    let mut label = start.clone();
    let mut i: usize = 0;
    assert(all.take(0) =~= Seq::empty());
    while i < references.len()
        invariant
            i <= references.len(),
            variables.wf(),
            all == views(references@),
            all_known(variables@, all),
            label@ == joined_labels(variables@, start@, all.take(i as int)),
        decreases references.len() - i,
    {
        proof {
            assert(all.take(i + 1).drop_last() =~= all.take(i as int));
            assert(variables@.contains_key(all[i as int]));
        }
        if let Some(variable) = variables.get(&references[i]) {
            label = label.join(&variable.label);
        }
        i = i + 1;
    }
    assert(all.take(i as int) =~= all);
    label
}

/// Every reference that an expansion replaces is known.
pub proof fn expanded_references_are_known(variables: Variables, value: JsonView, depth: nat)
    ensures
        expanded(variables, value, depth) matches Some((_, references)) ==> all_known(
            variables,
            references,
        ),
    decreases 40 - depth, 0nat,
{
    if depth <= MAX_DEPTH {
        match value {
            JsonView::Array(items) => {
                lemma_items_known(variables, items, depth + 1);
            },
            JsonView::Object(entries) => {
                lemma_entries_known(variables, entries, depth + 1);
            },
            _ => {},
        }
    }
}

proof fn lemma_items_known(variables: Variables, items: Seq<JsonView>, depth: nat)
    ensures
        expanded_items(variables, items, depth) matches Some((_, references)) ==> all_known(
            variables,
            references,
        ),
    decreases 40 - depth, items.len() + 1,
{
    if depth <= MAX_DEPTH + 1 && items.len() > 0 {
        lemma_items_known(variables, items.drop_last(), depth);
        expanded_references_are_known(variables, items.last(), depth);
    }
}

proof fn lemma_entries_known(variables: Variables, entries: EntriesView, depth: nat)
    ensures
        expanded_entries(variables, entries, depth) matches Some((_, references)) ==> all_known(
            variables,
            references,
        ),
    decreases 40 - depth, entries.len() + 1,
{
    if depth <= MAX_DEPTH + 1 && entries.len() > 0 {
        lemma_entries_known(variables, entries.drop_last(), depth);
        expanded_references_are_known(variables, entries.last().1, depth);
    }
}

/// Every reference that a call names is known.
pub proof fn resolved_references_are_known(
    variables: Variables,
    name: Seq<char>,
    arguments: EntriesView,
)
    ensures
        resolved(variables, name, arguments) matches Some(call) ==> all_known(
            variables,
            call.references,
        ),
{
    lemma_entries_known(variables, arguments, 0);
}

/// Looks up the references of a call.
pub(crate) fn resolve_call(
    variables: &Table<String, StoredVariable>,
    name: &str,
    arguments: &Entries,
) -> (result: Option<Resolved>)
    requires
        variables.wf(),
    ensures
        match result {
            Some(call) => resolved(variables@, name@, entries_view(arguments@)) == Some(call@),
            None => resolved(variables@, name@, entries_view(arguments@)) is None,
        },
{
    let inspecting = same_text(name, INSPECT_VARIABLE);
    if inspecting || same_text(name, QUARANTINED_LLM) {
        let named = if inspecting {
            read_inspected(arguments)
        } else {
            read_quarantined(arguments)
        };
        let references = match named {
            Some(references) => references,
            None => return None,
        };
        if references.len() == 0 || references.len() > MAX_REFERENCES {
            return None;
        }
        match read_payloads(variables, &references) {
            Some(payloads) => Some(
                Resolved { arguments: copy_entries(arguments), variables: payloads, references },
            ),
            None => None,
        }
    } else {
        match expand_entries(variables, arguments, 0) {
            Some((arguments, references)) => {
                let variables: Vec<Json> = Vec::new();
                assert(items_view(variables@) =~= Seq::<JsonView>::empty());
                Some(Resolved { arguments, variables, references })
            },
            None => None,
        }
    }
}

} // verus!
