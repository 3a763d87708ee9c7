//! Strings: equality, order, prefixes and fresh identifiers.
use vstd::prelude::*;

verus! {

/// Whether `left` comes before `right` in the lexicographic order of their characters.
pub open spec fn text_lt(left: Seq<char>, right: Seq<char>) -> bool
    decreases left.len(),
{
    if right.len() == 0 {
        false
    } else if left.len() == 0 {
        true
    } else if left[0] != right[0] {
        left[0] < right[0]
    } else {
        text_lt(left.drop_first(), right.drop_first())
    }
}

/// No text comes before itself.
pub proof fn lemma_text_lt_irreflexive(text: Seq<char>)
    ensures
        !text_lt(text, text),
    decreases text.len(),
{
    if text.len() > 0 {
        lemma_text_lt_irreflexive(text.drop_first());
    }
}

/// The order of texts is transitive.
pub proof fn lemma_text_lt_transitive(a: Seq<char>, b: Seq<char>, c: Seq<char>)
    requires
        text_lt(a, b),
        text_lt(b, c),
    ensures
        text_lt(a, c),
    decreases a.len(),
{
    if a.len() > 0 && a[0] == b[0] && b[0] == c[0] {
        lemma_text_lt_transitive(a.drop_first(), b.drop_first(), c.drop_first());
    }
}

/// Of two different texts one comes before the other.
pub proof fn lemma_text_lt_total(a: Seq<char>, b: Seq<char>)
    ensures
        a == b || text_lt(a, b) || text_lt(b, a),
    decreases a.len(),
{
    if a.len() > 0 && b.len() > 0 && a[0] == b[0] {
        lemma_text_lt_total(a.drop_first(), b.drop_first());
        if a.drop_first() == b.drop_first() {
            assert(a =~= seq![a[0]] + a.drop_first());
            assert(b =~= seq![b[0]] + b.drop_first());
        }
    } else if a.len() == 0 && b.len() == 0 {
        assert(a =~= b);
    }
}

/// Whether two strings hold the same characters.
pub(crate) fn same_text(left: &str, right: &str) -> (same: bool)
    ensures
        same == (left@ == right@),
{
    left.to_owned() == right.to_owned()
}

/// Texts that begin alike are ordered by what follows.
proof fn lemma_text_lt_after(left: Seq<char>, right: Seq<char>, n: int)
    requires
        0 <= n <= left.len(),
        n <= right.len(),
        left.take(n) == right.take(n),
    ensures
        text_lt(left, right) == text_lt(left.skip(n), right.skip(n)),
    decreases n,
{
    if n == 0 {
        assert(left.skip(0) =~= left);
        assert(right.skip(0) =~= right);
    } else {
        assert(left[0] == left.take(n)[0]);
        assert(right[0] == right.take(n)[0]);
        let l = left.drop_first();
        let r = right.drop_first();
        assert(l.take(n - 1) =~= left.take(n).drop_first());
        assert(r.take(n - 1) =~= right.take(n).drop_first());
        lemma_text_lt_after(l, r, n - 1);
        assert(l.skip(n - 1) =~= left.skip(n));
        assert(r.skip(n - 1) =~= right.skip(n));
    }
}

/// Whether `left` comes before `right`.
pub(crate) fn text_less(left: &str, right: &str) -> (less: bool)
    ensures
        less == text_lt(left@, right@),
{
    let left_len: usize = left.unicode_len();
    let right_len: usize = right.unicode_len();
    let mut i: usize = 0;
    while i < left_len && i < right_len
        invariant
            i <= left_len,
            i <= right_len,
            left_len == left@.len(),
            right_len == right@.len(),
            left@.take(i as int) == right@.take(i as int),
        decreases left_len - i,
    {
        let a = left.get_char(i);
        let b = right.get_char(i);
        if a != b {
            proof {
                lemma_text_lt_after(left@, right@, i as int);
            }
            return a < b;
        }
        i = i + 1;
        proof {
            assert(left@.take(i as int) =~= left@.take(i - 1).push(a));
            assert(right@.take(i as int) =~= right@.take(i - 1).push(b));
        }
    }
    proof {
        lemma_text_lt_after(left@, right@, i as int);
    }
    i < right_len
}

/// The hexadecimal digit for a number under sixteen.
pub open spec fn hex_digit(n: int) -> char {
    "0123456789abcdef"@[n]
}

/// Whether `c` is a lower-case hexadecimal digit.
pub open spec fn is_lower_hex(c: char) -> bool {
    ('0' <= c && c <= '9') || ('a' <= c && c <= 'f')
}

/// The shape of a random identifier: thirty-six characters, hyphens at four places and
/// lower-case hexadecimal digits at the others.
pub open spec fn is_identifier(text: Seq<char>) -> bool {
    &&& text.len() == 36
    &&& forall|i: int|
        0 <= i < 36 ==> if i == 8 || i == 13 || i == 18 || i == 23 {
            #[trigger] text[i] == '-'
        } else {
            is_lower_hex(text[i])
        }
}

/// `uuid::Uuid::new_v4`, written in its hyphenated lower-case form by `to_string`. Nothing
/// is claimed of which identifier is drawn, nor that two draws differ.
#[verifier::external_body]
pub(crate) fn fresh_identifier() -> (identifier: String)
    ensures
        is_identifier(identifier@),
{
    uuid::Uuid::new_v4().to_string()
}

/// Joins two strings.
pub(crate) fn concat(left: &str, right: &str) -> (joined: String)
    ensures
        joined@ == left@ + right@,
{
    let mut joined = left.to_owned();
    joined.append(right);
    joined
}

/// Whether `text` begins with `prefix`.
pub open spec fn has_prefix(text: Seq<char>, prefix: Seq<char>) -> bool {
    prefix.len() <= text.len() && text.subrange(0, prefix.len() as int) == prefix
}

/// A text begins with a prefix exactly where it is the prefix and something behind it.
pub proof fn prefixes_stand_in_front(text: Seq<char>, prefix: Seq<char>)
    ensures
        has_prefix(text, prefix) <==> exists|rest: Seq<char>| text == #[trigger] (prefix + rest),
{
    if has_prefix(text, prefix) {
        let rest = text.subrange(prefix.len() as int, text.len() as int);
        assert(text =~= prefix + rest);
    }
    if exists|rest: Seq<char>| text == #[trigger] (prefix + rest) {
        let rest = choose|rest: Seq<char>| text == #[trigger] (prefix + rest);
        assert(text.subrange(0, prefix.len() as int) =~= prefix);
    }
}

/// Texts are in the order of a dictionary: what they begin with alike does not matter, a text
/// comes before every longer one that begins with it, and else the first character that differs
/// decides.
pub proof fn texts_are_in_dictionary_order(
    start: Seq<char>,
    left: Seq<char>,
    right: Seq<char>,
)
    ensures
        text_lt(start + left, start + right) == text_lt(left, right),
        left.len() == 0 ==> (text_lt(left, right) <==> right.len() > 0),
        right.len() == 0 ==> !text_lt(left, right),
        left.len() > 0 && right.len() > 0 && left[0] != right[0] ==> (text_lt(left, right)
            <==> left[0] < right[0]),
    decreases start.len(),
{
    if start.len() == 0 {
        assert(start + left =~= left);
        assert(start + right =~= right);
    } else {
        texts_are_in_dictionary_order(start.drop_first(), left, right);
        assert((start + left).drop_first() =~= start.drop_first() + left);
        assert((start + right).drop_first() =~= start.drop_first() + right);
        assert((start + left)[0] == start[0]);
        assert((start + right)[0] == start[0]);
    }
}

} // verus!
