//! The lines that records and events are written as, and how far writing them gets.
use crate::json::{json_text, Json, JsonView};
use vstd::prelude::*;
use vstd::utf8::*;

verus! {

/// The line of a value: the bytes of its JSON text, and a line feed.
pub open spec fn line_of(value: JsonView) -> Seq<u8> {
    encode_utf8(json_text(value)).push(10)
}

impl Json {
    /// The line that the value is written as.
    pub fn line(&self) -> (line: Vec<u8>)
        ensures
            line@ == line_of(self@),
    {
        let text = self.text();
        let mut line = text.as_str().as_bytes_vec();
        line.push(10);
        line
    }
}

/// How many lines are tried, given of each whether writing it works: all of them, or those up
/// to and with the first that fails.
pub open spec fn attempts(works: Seq<bool>) -> nat
    decreases works.len(),
{
    if works.len() == 0 {
        0
    } else if works[0] {
        1 + attempts(works.drop_first())
    } else {
        1
    }
}

/// Every line before the last that is tried works. Where not all are tried, that last one fails.
pub proof fn attempts_end_at_the_first_failure(works: Seq<bool>)
    ensures
        attempts(works) <= works.len(),
        works.len() > 0 ==> attempts(works) > 0,
        forall|i: int| 0 <= i < attempts(works) - 1 ==> works[i],
        attempts(works) < works.len() ==> !works[attempts(works) - 1],
        works.contains(false) <==> works.len() > 0 && !works[attempts(works) - 1],
    decreases works.len(),
{
    if works.len() > 0 && works[0] {
        let rest = works.drop_first();
        attempts_end_at_the_first_failure(rest);
        assert forall|i: int| 0 <= i < attempts(works) - 1 implies works[i] by {
            if i > 0 {
                assert(rest[i - 1]);
            }
        }
        if works.contains(false) {
            let i = works.index_of(false);
            assert(rest[i - 1] == works[i]);
        }
    }
}

pub(crate) proof fn lemma_first_works(works: Seq<bool>)
    requires
        works.len() > 0,
    ensures
        works.contains(false) == (!works[0] || works.drop_first().contains(false)),
{
    let rest = works.drop_first();
    if rest.contains(false) {
        let i = rest.index_of(false);
        assert(works[i + 1] == rest[i]);
    }
    if works.contains(false) && works[0] {
        let i = works.index_of(false);
        assert(rest[i - 1] == works[i]);
    }
}

} // verus!
