//! JSON values, their entries and their compact text.
use crate::text::{hex_digit, same_text};
use crate::views::views;
use vstd::prelude::*;

verus! {

/// A JSON value. A number is kept as its text, and an object as its entries in order.
#[derive(Debug, PartialEq, Eq)]
pub enum Json {
    Null,
    Bool(bool),
    Number(String),
    Text(String),
    Array(Vec<Json>),
    Object(Vec<(String, Json)>),
}

/// The entries of an object. A key that is listed twice stands for its first entry.
pub type Entries = Vec<(String, Json)>;

/// What a JSON value stands for.
pub enum JsonView {
    Null,
    Bool(bool),
    Number(Seq<char>),
    Text(Seq<char>),
    Array(Seq<JsonView>),
    Object(Seq<(Seq<char>, JsonView)>),
}

/// What the entries of an object stand for.
pub type EntriesView = Seq<(Seq<char>, JsonView)>;

pub open spec fn json_view(json: Json) -> JsonView
    decreases json,
{
    match json {
        Json::Null => JsonView::Null,
        Json::Bool(value) => JsonView::Bool(value),
        Json::Number(text) => JsonView::Number(text@),
        Json::Text(text) => JsonView::Text(text@),
        Json::Array(items) => JsonView::Array(items_view(items@)),
        Json::Object(entries) => JsonView::Object(entries_view(entries@)),
    }
}

pub open spec fn items_view(items: Seq<Json>) -> Seq<JsonView>
    decreases items,
{
    Seq::new(
        items.len(),
        |i: int|
            if 0 <= i < items.len() {
                json_view(items[i])
            } else {
                JsonView::Null
            },
    )
}

pub open spec fn entries_view(entries: Seq<(String, Json)>) -> EntriesView
    decreases entries,
{
    Seq::new(
        entries.len(),
        |i: int|
            if 0 <= i < entries.len() {
                (entries[i].0@, json_view(entries[i].1))
            } else {
                (Seq::empty(), JsonView::Null)
            },
    )
}

impl View for Json {
    type V = JsonView;

    open spec fn view(&self) -> JsonView {
        json_view(*self)
    }
}

impl Clone for Json {
    fn clone(&self) -> (copy: Self)
        ensures
            copy@ == self@,
        decreases self,
    {
        match self {
            Json::Null => Json::Null,
            Json::Bool(value) => Json::Bool(*value),
            Json::Number(text) => Json::Number(text.clone()),
            Json::Text(text) => Json::Text(text.clone()),
            Json::Array(items) => {
                let mut copies: Vec<Json> = Vec::new();
                let mut i: usize = 0;
                while i < items.len()
                    invariant
                        i <= items.len(),
                        copies.len() == i,
                        *self == Json::Array(*items),
                        forall|j: int|
                            0 <= j < i ==> json_view(#[trigger] copies@[j]) == json_view(items@[j]),
                    decreases items.len() - i,
                {
                    proof {
                        lemma_item_is_smaller(*self, i as int);
                    }
                    copies.push(items[i].clone());
                    i = i + 1;
                }
                assert(items_view(copies@) =~= items_view(items@));
                Json::Array(copies)
            },
            Json::Object(entries) => {
                let mut copies: Entries = Vec::new();
                let mut i: usize = 0;
                while i < entries.len()
                    invariant
                        i <= entries.len(),
                        copies.len() == i,
                        *self == Json::Object(*entries),
                        forall|j: int|
                            0 <= j < i ==> (#[trigger] copies@[j]).0@ == entries@[j].0@ && json_view(
                                copies@[j].1,
                            ) == json_view(entries@[j].1),
                    decreases entries.len() - i,
                {
                    proof {
                        lemma_entry_is_smaller(*self, i as int);
                    }
                    copies.push((entries[i].0.clone(), entries[i].1.clone()));
                    i = i + 1;
                }
                assert(entries_view(copies@) =~= entries_view(entries@));
                Json::Object(copies)
            },
        }
    }
}

proof fn lemma_item_is_smaller(json: Json, i: int)
    requires
        json is Array,
        0 <= i < json->Array_0@.len(),
    ensures
        decreases_to!(json => json->Array_0@[i]),
{
    assert(decreases_to!(json => json->Array_0));
    assert(decreases_to!(json->Array_0 => json->Array_0@));
    assert(decreases_to!(json->Array_0@ => json->Array_0@[i]));
}

proof fn lemma_entry_is_smaller(json: Json, i: int)
    requires
        json is Object,
        0 <= i < json->Object_0@.len(),
    ensures
        decreases_to!(json => json->Object_0@[i].1),
{
    assert(decreases_to!(json => json->Object_0));
    assert(decreases_to!(json->Object_0 => json->Object_0@));
    assert(decreases_to!(json->Object_0@ => json->Object_0@[i]));
    assert(decreases_to!(json->Object_0@[i] => json->Object_0@[i].1));
}

/// A character as it stands in the JSON text of a string: after a backslash where it is a
/// quotation mark or a backslash, by a letter or a number where it is a control character, and
/// else as it is.
pub open spec fn escaped(c: char) -> Seq<char> {
    if c == '"' {
        seq!['\\', '"']
    } else if c == '\\' {
        seq!['\\', '\\']
    } else if c == '\u{8}' {
        seq!['\\', 'b']
    } else if c == '\t' {
        seq!['\\', 't']
    } else if c == '\n' {
        seq!['\\', 'n']
    } else if c == '\u{c}' {
        seq!['\\', 'f']
    } else if c == '\r' {
        seq!['\\', 'r']
    } else if ' ' > c {
        seq!['\\', 'u', '0', '0', hex_digit(c as int / 16), hex_digit(c as int % 16)]
    } else {
        seq![c]
    }
}

/// The characters of a string, each as it stands in the string's JSON text.
pub open spec fn escaped_text(text: Seq<char>) -> Seq<char>
    decreases text.len(),
{
    if text.len() == 0 {
        Seq::empty()
    } else {
        escaped(text[0]) + escaped_text(text.drop_first())
    }
}

/// The JSON text of a string: in quotation marks, with what JSON escapes escaped.
pub open spec fn quoted(text: Seq<char>) -> Seq<char> {
    seq!['"'] + escaped_text(text) + seq!['"']
}

/// `serde_json::Value`'s `to_string` on a string value: the string's JSON text, in which
/// quotation marks, backslashes and the characters below the space are escaped and nothing
/// else is.
#[verifier::external_body]
fn quote(text: &str) -> (quotation: String)
    ensures
        quotation@ == quoted(text@),
{
    serde_json::Value::String(text.to_owned()).to_string()
}

/// The compact JSON text of a value: no space between tokens, the entries of an object in
/// order.
pub open spec fn json_text(value: JsonView) -> Seq<char>
    decreases value,
{
    match value {
        JsonView::Null => "null"@,
        JsonView::Bool(value) => if value {
            "true"@
        } else {
            "false"@
        },
        JsonView::Number(text) => text,
        JsonView::Text(text) => quoted(text),
        JsonView::Array(items) => "["@ + items_text(items) + "]"@,
        JsonView::Object(entries) => "{"@ + entries_text(entries) + "}"@,
    }
}

/// The texts of the items, with commas between them.
pub open spec fn items_text(items: Seq<JsonView>) -> Seq<char>
    decreases items,
{
    if items.len() == 0 {
        Seq::empty()
    } else if items.len() == 1 {
        json_text(items[0])
    } else {
        items_text(items.drop_last()) + ","@ + json_text(items.last())
    }
}

/// The texts of the entries, with commas between them.
pub open spec fn entries_text(entries: EntriesView) -> Seq<char>
    decreases entries,
{
    if entries.len() == 0 {
        Seq::empty()
    } else if entries.len() == 1 {
        quoted(entries[0].0) + ":"@ + json_text(entries[0].1)
    } else {
        entries_text(entries.drop_last()) + ","@ + quoted(entries.last().0) + ":"@ + json_text(
            entries.last().1,
        )
    }
}

impl Json {
    /// The compact JSON text of the value.
    pub fn text(&self) -> (text: String)
        ensures
            text@ == json_text(self@),
        decreases self,
    {
        match self {
            Json::Null => "null".to_owned(),
            Json::Bool(value) => if *value {
                "true".to_owned()
            } else {
                "false".to_owned()
            },
            Json::Number(text) => text.clone(),
            Json::Text(text) => quote(text.as_str()),
            Json::Array(items) => {
                let mut text = "[".to_owned();
                let ghost all = items_view(items@);
                let mut i: usize = 0;
                assert(text@ =~= "["@ + items_text(all.take(0)));
                while i < items.len()
                    invariant
                        i <= items.len(),
                        *self == Json::Array(*items),
                        all == items_view(items@),
                        text@ == "["@ + items_text(all.take(i as int)),
                    decreases items.len() - i,
                {
                    proof {
                        lemma_item_is_smaller(*self, i as int);
                        assert(all.take(i + 1).drop_last() =~= all.take(i as int));
                        assert(all.take(0) =~= Seq::empty());
                    }
                    if i > 0 {
                        text.append(",");
                    }
                    let item = items[i].text();
                    text.append(item.as_str());
                    i = i + 1;
                    assert(text@ =~= "["@ + items_text(all.take(i as int)));
                }
                assert(all.take(i as int) =~= all);
                text.append("]");
                text
            },
            Json::Object(entries) => {
                let mut text = "{".to_owned();
                let ghost all = entries_view(entries@);
                let mut i: usize = 0;
                assert(text@ =~= "{"@ + entries_text(all.take(0)));
                while i < entries.len()
                    invariant
                        i <= entries.len(),
                        *self == Json::Object(*entries),
                        all == entries_view(entries@),
                        text@ == "{"@ + entries_text(all.take(i as int)),
                    decreases entries.len() - i,
                {
                    proof {
                        lemma_entry_is_smaller(*self, i as int);
                        assert(all.take(i + 1).drop_last() =~= all.take(i as int));
                        assert(all.take(0) =~= Seq::empty());
                    }
                    if i > 0 {
                        text.append(",");
                    }
                    let key = quote(entries[i].0.as_str());
                    let value = entries[i].1.text();
                    text.append(key.as_str());
                    text.append(":");
                    text.append(value.as_str());
                    i = i + 1;
                    assert(text@ =~= "{"@ + entries_text(all.take(i as int)));
                }
                assert(all.take(i as int) =~= all);
                text.append("}");
                text
            },
        }
    }
}

/// The value under `key`, if there is one.
pub open spec fn lookup(entries: EntriesView, key: Seq<char>) -> Option<JsonView>
    decreases entries.len(),
{
    if entries.len() == 0 {
        None
    } else if entries[0].0 == key {
        Some(entries[0].1)
    } else {
        lookup(entries.drop_first(), key)
    }
}

pub proof fn lemma_lookup_first(entries: EntriesView, key: Seq<char>, i: int)
    requires
        0 <= i < entries.len(),
        entries[i].0 == key,
        forall|j: int| 0 <= j < i ==> (#[trigger] entries[j]).0 != key,
    ensures
        lookup(entries, key) == Some(entries[i].1),
    decreases i,
{
    if i > 0 {
        assert(entries[0].0 != key);
        let rest = entries.drop_first();
        assert forall|j: int| 0 <= j < i - 1 implies (#[trigger] rest[j]).0 != key by {
            assert(entries[j + 1].0 != key);
        }
        lemma_lookup_first(rest, key, i - 1);
    }
}

pub proof fn lemma_lookup_none(entries: EntriesView, key: Seq<char>)
    ensures
        lookup(entries, key) is None <==> forall|j: int|
            0 <= j < entries.len() ==> (#[trigger] entries[j]).0 != key,
    decreases entries.len(),
{
    if entries.len() > 0 {
        let rest = entries.drop_first();
        lemma_lookup_none(rest, key);
        if entries[0].0 != key {
            if lookup(rest, key) is None {
                assert forall|j: int| 0 <= j < entries.len() implies (#[trigger] entries[j]).0
                    != key by {
                    if j > 0 {
                        assert(rest[j - 1].0 != key);
                    }
                }
            } else {
                let j = choose|j: int| 0 <= j < rest.len() && (#[trigger] rest[j]).0 == key;
                assert(entries[j + 1].0 == key);
            }
        }
    }
}

/// The value under `key`, if there is one.
pub fn lookup_entry<'a>(entries: &'a Entries, key: &str) -> (found: Option<&'a Json>)
    ensures
        match found {
            Some(value) => lookup(entries_view(entries@), key@) == Some(value@),
            None => lookup(entries_view(entries@), key@) is None,
        },
{
    let mut i: usize = 0;
    while i < entries.len()
        invariant
            i <= entries.len(),
            forall|j: int| 0 <= j < i ==> (#[trigger] entries_view(entries@)[j]).0 != key@,
        decreases entries.len() - i,
    {
        if same_text(entries[i].0.as_str(), key) {
            proof {
                lemma_lookup_first(entries_view(entries@), key@, i as int);
            }
            return Some(&entries[i].1);
        }
        i = i + 1;
    }
    proof {
        lemma_lookup_none(entries_view(entries@), key@);
    }
    None
}

/// A copy of the entries.
pub fn copy_entries(entries: &Entries) -> (copies: Entries)
    ensures
        entries_view(copies@) == entries_view(entries@),
{
    let mut copies: Entries = Vec::new();
    let mut i: usize = 0;
    while i < entries.len()
        invariant
            i <= entries.len(),
            entries_view(copies@) == entries_view(entries@).take(i as int),
        decreases entries.len() - i,
    {
        let ghost before = entries_view(copies@);
        copies.push((entries[i].0.clone(), entries[i].1.clone()));
        i = i + 1;
        assert(entries_view(copies@) =~= before.push(entries_view(entries@)[i - 1]));
        assert(entries_view(copies@) =~= entries_view(entries@).take(i as int));
    }
    assert(entries_view(entries@).take(i as int) =~= entries_view(entries@));
    copies
}

/// The entries whose keys are not in `keys`.
pub open spec fn without_keys(entries: EntriesView, keys: Seq<Seq<char>>) -> EntriesView {
    entries.filter(|entry: (Seq<char>, JsonView)| !keys.contains(entry.0))
}

/// Copies the entries whose keys are not in `keys`.
pub fn remove_keys(entries: &Entries, keys: &[&str]) -> (kept: Entries)
    ensures
        entries_view(kept@) == without_keys(entries_view(entries@), views(keys@)),
{
    let ghost all = entries_view(entries@);
    let ghost names = views(keys@);
    let ghost keep = |entry: (Seq<char>, JsonView)| !names.contains(entry.0);
    let mut kept: Entries = Vec::new();
    let mut i: usize = 0;
    assert(all.take(0).filter(keep) =~= Seq::empty()) by {
        reveal(Seq::filter);
    }
    assert(entries_view(kept@) =~= Seq::empty());
    while i < entries.len()
        invariant
            i <= entries.len(),
            all == entries_view(entries@),
            names == views(keys@),
            keep == (|entry: (Seq<char>, JsonView)| !names.contains(entry.0)),
            entries_view(kept@) == all.take(i as int).filter(keep),
        decreases entries.len() - i,
    {
        let mut listed = false;
        let mut k: usize = 0;
        while k < keys.len()
            invariant
                i < entries.len(),
                k <= keys@.len(),
                names == views(keys@),
                listed <==> exists|j: int| 0 <= j < k && #[trigger] names[j] == entries@[i as int].0@,
            decreases keys@.len() - k,
        {
            if same_text(keys[k], entries[i].0.as_str()) {
                listed = true;
                assert(names[k as int] == entries@[i as int].0@);
            }
            k = k + 1;
        }
        let ghost before = entries_view(kept@);
        proof {
            assert(listed == names.contains(all[i as int].0));
            assert(all.take(i + 1).drop_last() =~= all.take(i as int));
            assert(all.take(i + 1).last() == all[i as int]);
            reveal(Seq::filter);
        }
        if !listed {
            kept.push((entries[i].0.clone(), entries[i].1.clone()));
            assert(entries_view(kept@) =~= before.push(all[i as int]));
        }
        i = i + 1;
        assert(entries_view(kept@) =~= all.take(i as int).filter(keep));
    }
    assert(all.take(i as int) =~= all);
    kept
}

/// What is left under a key once the keys in `keys` are gone.
pub proof fn lemma_lookup_without(entries: EntriesView, keys: Seq<Seq<char>>, key: Seq<char>)
    ensures
        lookup(without_keys(entries, keys), key) == (if keys.contains(key) {
            None
        } else {
            lookup(entries, key)
        }),
{
    lemma_lookup_filter(entries, |entry: (Seq<char>, JsonView)| !keys.contains(entry.0), key);
}

/// What is under a key once an entry is put at the end.
pub proof fn lemma_lookup_push(entries: EntriesView, last: (Seq<char>, JsonView), key: Seq<char>)
    ensures
        lookup(entries.push(last), key) == (match lookup(entries, key) {
            Some(value) => Some(value),
            None => if last.0 == key {
                Some(last.1)
            } else {
                None
            },
        }),
{
    assert(entries.push(last) =~= entries + seq![last]);
    lemma_lookup_concat(entries, seq![last], key);
    reveal_with_fuel(lookup, 2);
}

/// Makes an entry.
pub(crate) fn entry(key: &str, value: Json) -> (made: (String, Json))
    ensures
        made.0@ == key@,
        made.1@ == value@,
{
    (key.to_owned(), value)
}

/// Texts as a JSON array.
pub open spec fn texts_json(texts: Seq<Seq<char>>) -> JsonView {
    JsonView::Array(texts.map_values(|text: Seq<char>| JsonView::Text(text)))
}

/// A text as a JSON value.
pub(crate) fn text_value(text: &str) -> (value: Json)
    ensures
        value@ == JsonView::Text(text@),
{
    Json::Text(text.to_owned())
}

/// Texts as a JSON array.
pub(crate) fn texts_value(texts: &Vec<String>) -> (value: Json)
    ensures
        value@ == texts_json(views(texts@)),
{
    let mut items: Vec<Json> = Vec::new();
    let mut i: usize = 0;
    while i < texts.len()
        invariant
            i <= texts.len(),
            items.len() == i,
            forall|j: int| 0 <= j < i ==> (#[trigger] items@[j])@ == JsonView::Text(texts@[j]@),
        decreases texts.len() - i,
    {
        items.push(Json::Text(texts[i].clone()));
        i = i + 1;
    }
    assert(items_view(items@) =~= texts_json(views(texts@))->Array_0);
    Json::Array(items)
}

/// `left` with the values of `right` put over its own, and what only `right` has at the end.
pub open spec fn merged(left: EntriesView, right: EntriesView) -> EntriesView {
    left.map_values(
        |entry: (Seq<char>, JsonView)|
            (
                entry.0,
                match lookup(right, entry.0) {
                    Some(value) => value,
                    None => entry.1,
                },
            ),
    ) + right.filter(|entry: (Seq<char>, JsonView)| lookup(left, entry.0) is None)
}

/// Merges two lists of entries; where both have a key, the value of `right` stays.
pub fn merge_entries(left: &Entries, right: &Entries) -> (both: Entries)
    ensures
        entries_view(both@) == merged(entries_view(left@), entries_view(right@)),
{
    let ghost l = entries_view(left@);
    let ghost r = entries_view(right@);
    let ghost overlay = l.map_values(
        |entry: (Seq<char>, JsonView)|
            (
                entry.0,
                match lookup(r, entry.0) {
                    Some(value) => value,
                    None => entry.1,
                },
            ),
    );
    let ghost fresh = |entry: (Seq<char>, JsonView)| lookup(l, entry.0) is None;
    let mut both: Entries = Vec::new();
    let mut i: usize = 0;
    while i < left.len()
        invariant
            i <= left.len(),
            l == entries_view(left@),
            r == entries_view(right@),
            overlay.len() == l.len(),
            forall|j: int|
                0 <= j < l.len() ==> #[trigger] overlay[j] == (
                    l[j].0,
                    match lookup(r, l[j].0) {
                        Some(value) => value,
                        None => l[j].1,
                    },
                ),
            entries_view(both@) == overlay.take(i as int),
        decreases left.len() - i,
    {
        let value = match lookup_entry(right, left[i].0.as_str()) {
            Some(value) => value.clone(),
            None => left[i].1.clone(),
        };
        let ghost before = entries_view(both@);
        both.push((left[i].0.clone(), value));
        assert(l[i as int] == (left@[i as int].0@, left@[i as int].1@));
        assert(entries_view(both@) =~= before.push(overlay[i as int]));
        i = i + 1;
        assert(entries_view(both@) =~= overlay.take(i as int));
    }
    assert(overlay.take(i as int) =~= overlay);
    let mut k: usize = 0;
    assert(r.take(0).filter(fresh) =~= Seq::empty()) by {
        reveal(Seq::filter);
    }
    assert(entries_view(both@) =~= overlay + r.take(0).filter(fresh));
    while k < right.len()
        invariant
            k <= right.len(),
            l == entries_view(left@),
            r == entries_view(right@),
            fresh == (|entry: (Seq<char>, JsonView)| lookup(l, entry.0) is None),
            entries_view(both@) == overlay + r.take(k as int).filter(fresh),
        decreases right.len() - k,
    {
        let ghost before = entries_view(both@);
        proof {
            assert(r.take(k + 1).drop_last() =~= r.take(k as int));
            assert(r.take(k + 1).last() == r[k as int]);
            reveal(Seq::filter);
        }
        if lookup_entry(left, right[k].0.as_str()).is_none() {
            both.push((right[k].0.clone(), right[k].1.clone()));
            assert(entries_view(both@) =~= before.push(r[k as int]));
        }
        k = k + 1;
        assert(entries_view(both@) =~= overlay + r.take(k as int).filter(fresh));
    }
    assert(r.take(k as int) =~= r);
    both
}

proof fn lemma_lookup_concat(left: EntriesView, right: EntriesView, key: Seq<char>)
    ensures
        lookup(left + right, key) == (match lookup(left, key) {
            Some(value) => Some(value),
            None => lookup(right, key),
        }),
    decreases left.len(),
{
    if left.len() == 0 {
        assert(left + right =~= right);
    } else {
        assert((left + right).drop_first() =~= left.drop_first() + right);
        assert((left + right)[0] == left[0]);
        lemma_lookup_concat(left.drop_first(), right, key);
    }
}

proof fn lemma_lookup_filter(
    entries: EntriesView,
    keep: spec_fn((Seq<char>, JsonView)) -> bool,
    key: Seq<char>,
)
    requires
        forall|value: JsonView| #[trigger] keep((key, value)) == keep((key, JsonView::Null)),
    ensures
        lookup(entries.filter(keep), key) == (if keep((key, JsonView::Null)) {
            lookup(entries, key)
        } else {
            None
        }),
    decreases entries.len(),
{
    reveal(Seq::filter);
    if entries.len() > 0 {
        let rest = entries.drop_last();
        lemma_lookup_filter(rest, keep, key);
        let last = entries.last();
        let one = seq![last];
        assert(entries =~= rest + one);
        lemma_lookup_concat(rest, one, key);
        lemma_lookup_concat(rest.filter(keep), one, key);
        assert(rest.filter(keep) + one =~= rest.filter(keep).push(last));
        assert(lookup(one, key) == (if last.0 == key {
            Some(last.1)
        } else {
            None
        })) by {
            reveal_with_fuel(lookup, 2);
        }
        if last.0 == key {
            assert(last == (key, last.1));
            assert(keep((key, last.1)) == keep((key, JsonView::Null)));
        }
    }
}

/// What a merge gives under a key: the value of `right` where it has one, else that of `left`.
pub proof fn merge_prefers_later(left: EntriesView, right: EntriesView, key: Seq<char>)
    ensures
        lookup(merged(left, right), key) == (match lookup(right, key) {
            Some(value) => Some(value),
            None => lookup(left, key),
        }),
{
    let over = |entry: (Seq<char>, JsonView)|
        (
            entry.0,
            match lookup(right, entry.0) {
                Some(value) => value,
                None => entry.1,
            },
        );
    let fresh = |entry: (Seq<char>, JsonView)| lookup(left, entry.0) is None;
    lemma_lookup_concat(left.map_values(over), right.filter(fresh), key);
    lemma_lookup_over(left, right, key);
    lemma_lookup_filter(right, fresh, key);
}

proof fn lemma_lookup_over(left: EntriesView, right: EntriesView, key: Seq<char>)
    ensures
        lookup(
            left.map_values(
                |entry: (Seq<char>, JsonView)|
                    (
                        entry.0,
                        match lookup(right, entry.0) {
                            Some(value) => value,
                            None => entry.1,
                        },
                    ),
            ),
            key,
        ) == (match lookup(left, key) {
            Some(value) => Some(
                match lookup(right, key) {
                    Some(other) => other,
                    None => value,
                },
            ),
            None => None,
        }),
    decreases left.len(),
{
    let over = |entry: (Seq<char>, JsonView)|
        (
            entry.0,
            match lookup(right, entry.0) {
                Some(value) => value,
                None => entry.1,
            },
        );
    if left.len() > 0 {
        assert(left.map_values(over).drop_first() =~= left.drop_first().map_values(over));
        lemma_lookup_over(left.drop_first(), right, key);
    }
}

} // verus!
