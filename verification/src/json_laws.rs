//! What the JSON text of a value is made of, and how long that of a string can be.
use crate::json::{
    entries_text, escaped, escaped_text, items_text, json_text, lookup, merge_prefers_later, merged,
    quoted, EntriesView, JsonView,
};
use crate::text::hex_digit;
use vstd::prelude::*;
use vstd::utf8::*;

verus! {

/// The encoding of two texts, one behind the other, is that of the one and that of the other.
pub proof fn encodings_concatenate(first: Seq<char>, second: Seq<char>)
    ensures
        encode_utf8(first + second) == encode_utf8(first) + encode_utf8(second),
    decreases first.len(),
{
    if first.len() == 0 {
        assert(first + second =~= second);
        assert(encode_utf8(first) + encode_utf8(second) =~= encode_utf8(second));
    } else {
        let both = first + second;
        assert(both.drop_first() =~= first.drop_first() + second);
        encodings_concatenate(first.drop_first(), second);
        assert(encode_utf8(both) =~= encode_utf8(first) + encode_utf8(second));
    }
}

proof fn lemma_one_character(c: char)
    ensures
        encode_utf8(seq![c]).len() <= 4,
        c as u32 <= 0x7F ==> encode_utf8(seq![c]).len() == 1,
{
    assert(seq![c].drop_first() =~= Seq::empty());
    reveal_with_fuel(encode_utf8, 2);
}

proof fn lemma_ascii(text: Seq<char>)
    requires
        forall|i: int| 0 <= i < text.len() ==> (#[trigger] text[i]) as u32 <= 0x7F,
    ensures
        encode_utf8(text).len() == text.len(),
    decreases text.len(),
{
    if text.len() > 0 {
        let rest = text.drop_first();
        assert forall|i: int| 0 <= i < rest.len() implies (#[trigger] rest[i]) as u32 <= 0x7F by {
            assert(rest[i] == text[i + 1]);
        }
        lemma_ascii(rest);
        assert(text[0] as u32 <= 0x7F);
    }
}

proof fn lemma_escaped(c: char)
    ensures
        encode_utf8(escaped(c)).len() <= 6,
{
    reveal_strlit("0123456789abcdef");
    if escaped(c) == seq![c] {
        lemma_one_character(c);
    } else {
        lemma_ascii(escaped(c));
    }
}

proof fn lemma_escaped_text(text: Seq<char>)
    ensures
        encode_utf8(escaped_text(text)).len() <= 6 * text.len(),
    decreases text.len(),
{
    if text.len() > 0 {
        lemma_escaped(text[0]);
        lemma_escaped_text(text.drop_first());
        encodings_concatenate(escaped(text[0]), escaped_text(text.drop_first()));
    }
}

/// The JSON text of a string takes at most six bytes for each of its characters, and two for
/// the quotation marks.
pub proof fn quotations_are_short(text: Seq<char>)
    ensures
        encode_utf8(quoted(text)).len() <= 6 * text.len() + 2,
{
    let mark = seq!['"'];
    lemma_ascii(mark);
    lemma_escaped_text(text);
    encodings_concatenate(mark, escaped_text(text));
    encodings_concatenate(mark + escaped_text(text), mark);
}

/// Whether nothing in a text is escaped.
pub open spec fn is_plain(text: Seq<char>) -> bool {
    forall|i: int| 0 <= i < text.len() ==> escaped(#[trigger] text[i]) == seq![text[i]]
}

/// A text in which nothing is escaped stands between the quotation marks as it is.
pub proof fn plain_texts_are_quoted_as_they_are(text: Seq<char>)
    requires
        is_plain(text),
    ensures
        quoted(text) == seq!['"'] + text + seq!['"'],
{
    lemma_plain(text);
}

proof fn lemma_plain(text: Seq<char>)
    requires
        is_plain(text),
    ensures
        escaped_text(text) == text,
    decreases text.len(),
{
    if text.len() > 0 {
        let rest = text.drop_first();
        assert forall|i: int| 0 <= i < rest.len() implies escaped(#[trigger] rest[i]) == seq![
            rest[i],
        ] by {
            assert(rest[i] == text[i + 1]);
        }
        lemma_plain(rest);
        assert(escaped(text[0]) == seq![text[0]]);
        assert(text =~= seq![text[0]] + rest);
    } else {
        assert(text =~= Seq::empty());
    }
}

/// The text of a value that is no container is what it is called or what it holds.
pub proof fn simple_values_are_written_plainly(value: bool, text: Seq<char>)
    ensures
        json_text(JsonView::Null) == "null"@,
        json_text(JsonView::Bool(value)) == (if value {
            "true"@
        } else {
            "false"@
        }),
        json_text(JsonView::Number(text)) == text,
        json_text(JsonView::Text(text)) == quoted(text),
{
}

/// The text of an array is that of its items in brackets: one alone is written as it is, and two
/// lists of items, one behind the other, with a comma between them.
pub proof fn arrays_are_written_item_by_item(
    first: Seq<JsonView>,
    second: Seq<JsonView>,
    item: JsonView,
)
    ensures
        json_text(JsonView::Array(first)) == seq!['['] + items_text(first) + seq![']'],
        items_text(Seq::empty()).len() == 0,
        items_text(seq![item]) == json_text(item),
        first.len() > 0 && second.len() > 0 ==> items_text(first + second) == items_text(first)
            + seq![','] + items_text(second),
    decreases second.len(),
{
    reveal_strlit("[");
    reveal_strlit("]");
    reveal_strlit(",");
    assert("["@ =~= seq!['[']);
    assert("]"@ =~= seq![']']);
    assert(","@ =~= seq![',']);
    if first.len() > 0 && second.len() > 0 {
        let both = first + second;
        assert(both.drop_last() =~= first + second.drop_last());
        assert(both.last() == second.last());
        if second.len() == 1 {
            assert(first + second.drop_last() =~= first);
            assert(second[0] == second.last());
        } else {
            arrays_are_written_item_by_item(first, second.drop_last(), item);
            assert(items_text(both) =~= items_text(first) + seq![','] + items_text(second));
        }
    }
}

/// The text of an object is that of its entries in braces: each is its quoted key, a colon and
/// the text of its value, and two lists of entries, one behind the other, have a comma between
/// them.
pub proof fn objects_are_written_entry_by_entry(
    first: EntriesView,
    second: EntriesView,
    key: Seq<char>,
    value: JsonView,
)
    ensures
        json_text(JsonView::Object(first)) == seq!['{'] + entries_text(first) + seq!['}'],
        entries_text(Seq::empty()).len() == 0,
        entries_text(seq![(key, value)]) == quoted(key) + seq![':'] + json_text(value),
        first.len() > 0 && second.len() > 0 ==> entries_text(first + second) == entries_text(first)
            + seq![','] + entries_text(second),
    decreases second.len(),
{
    reveal_strlit("{");
    reveal_strlit("}");
    reveal_strlit(",");
    reveal_strlit(":");
    assert("{"@ =~= seq!['{']);
    assert("}"@ =~= seq!['}']);
    assert(","@ =~= seq![',']);
    assert(":"@ =~= seq![':']);
    if first.len() > 0 && second.len() > 0 {
        let both = first + second;
        assert(both.drop_last() =~= first + second.drop_last());
        assert(both.last() == second.last());
        if second.len() == 1 {
            assert(first + second.drop_last() =~= first);
            assert(second[0] == second.last());
            assert(entries_text(both) =~= entries_text(first) + seq![','] + entries_text(second));
        } else {
            objects_are_written_entry_by_entry(first, second.drop_last(), key, value);
            assert(entries_text(both) =~= entries_text(first) + seq![','] + entries_text(second));
        }
    }
}

/// A string is written in quotation marks, character by character. A character is written as it
/// is, unless it is a quotation mark, a backslash or below the space: then a backslash stands
/// before it, or before what stands for it.
pub proof fn strings_are_written_character_by_character(
    first: Seq<char>,
    second: Seq<char>,
    c: char,
)
    ensures
        quoted(first) == seq!['"'] + escaped_text(first) + seq!['"'],
        escaped_text(first + second) == escaped_text(first) + escaped_text(second),
        escaped_text(seq![c]) == escaped(c),
        c != '"' && c != '\\' && c >= ' ' ==> escaped(c) == seq![c],
        c == '"' || c == '\\' ==> escaped(c) == seq!['\\', c],
        ' ' > c ==> escaped(c)[0] == '\\' && (escaped(c).len() == 2 || escaped(c) == seq![
            '\\',
            'u',
            '0',
            '0',
            hex_digit(c as int / 16),
            hex_digit(c as int % 16),
        ]),
    decreases first.len(),
{
    let one = seq![c];
    assert(one.drop_first() =~= Seq::empty());
    reveal_with_fuel(escaped_text, 2);
    assert(escaped(c) + Seq::empty() =~= escaped(c));
    if first.len() == 0 {
        assert(first + second =~= second);
        assert(escaped_text(first) + escaped_text(second) =~= escaped_text(second));
    } else {
        strings_are_written_character_by_character(first.drop_first(), second, c);
        assert((first + second).drop_first() =~= first.drop_first() + second);
        assert((first + second)[0] == first[0]);
        assert(escaped_text(first + second) =~= escaped_text(first) + escaped_text(second));
    }
}

proof fn lemma_hex_digits(left: int, right: int)
    requires
        0 <= left < 16,
        0 <= right < 16,
    ensures
        hex_digit(left) == hex_digit(right) <==> left == right,
{
    reveal_strlit("0123456789abcdef");
}

proof fn lemma_escapes_differ(left: char, right: char, a: Seq<char>, b: Seq<char>)
    requires
        escaped(left) + a == escaped(right) + b,
    ensures
        left == right,
        a == b,
{
    let both = escaped(left) + a;
    let same = escaped(right) + b;
    assert(both[0] == escaped(left)[0]);
    assert(same[0] == escaped(right)[0]);
    if escaped(left).len() >= 2 && escaped(right).len() >= 2 {
        assert(both[1] == escaped(left)[1]);
        assert(same[1] == escaped(right)[1]);
    }
    if escaped(left).len() == 6 && escaped(right).len() == 6 {
        assert(both[4] == escaped(left)[4]);
        assert(same[4] == escaped(right)[4]);
        assert(both[5] == escaped(left)[5]);
        assert(same[5] == escaped(right)[5]);
        lemma_hex_digits(left as int / 16, right as int / 16);
        lemma_hex_digits(left as int % 16, right as int % 16);
        assert(left as int == 16 * (left as int / 16) + left as int % 16);
        assert(right as int == 16 * (right as int / 16) + right as int % 16);
    }
    assert(left == right);
    let n = escaped(left).len() as int;
    assert(both.subrange(n, both.len() as int) =~= a);
    assert(same.subrange(n, same.len() as int) =~= b);
}

/// Different strings have different texts.
pub proof fn texts_tell_strings_apart(left: Seq<char>, right: Seq<char>)
    requires
        quoted(left) == quoted(right),
    ensures
        left == right,
{
    let a = quoted(left);
    let b = quoted(right);
    assert(a.subrange(1, a.len() - 1) =~= escaped_text(left));
    assert(b.subrange(1, b.len() - 1) =~= escaped_text(right));
    lemma_escaped_apart(left, right);
}

proof fn lemma_escaped_apart(left: Seq<char>, right: Seq<char>)
    requires
        escaped_text(left) == escaped_text(right),
    ensures
        left == right,
    decreases left.len(),
{
    if left.len() == 0 {
        if right.len() > 0 {
            assert(escaped(right[0]).len() > 0);
            assert(escaped_text(right).len() > 0);
        }
        assert(left =~= right);
    } else if right.len() == 0 {
        assert(escaped(left[0]).len() > 0);
        assert(escaped_text(left).len() > 0);
    } else {
        lemma_escapes_differ(
            left[0],
            right[0],
            escaped_text(left.drop_first()),
            escaped_text(right.drop_first()),
        );
        lemma_escaped_apart(left.drop_first(), right.drop_first());
        assert(left =~= seq![left[0]] + left.drop_first());
        assert(right =~= seq![right[0]] + right.drop_first());
    }
}

/// Merged entries have the keys of both lists and no other, those of the first in their places.
pub proof fn merging_keeps_the_keys_of_both(
    left: EntriesView,
    right: EntriesView,
    key: Seq<char>,
    i: int,
)
    ensures
        lookup(merged(left, right), key) is Some <==> lookup(left, key) is Some || lookup(
            right,
            key,
        ) is Some,
        0 <= i < left.len() ==> merged(left, right)[i].0 == left[i].0,
        merged(left, right).len() <= left.len() + right.len(),
{
    merge_prefers_later(left, right, key);
    broadcast use vstd::seq_lib::group_filter_ensures;
}

} // verus!
