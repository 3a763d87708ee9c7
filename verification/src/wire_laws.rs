//! What records and labels say on the wire.
use crate::json::{json_text, texts_json, JsonView};
use crate::label::{ascending, name_set, names_are_canonical, Decision, LabelView, ReadersView};
use crate::line::line_of;
use crate::record_json::{decimal, decision_name, exposure_name, listed, operation_name};
use crate::trace::{Exposure, Operation, RecordView};
use crate::views::views;
use vstd::prelude::*;
use vstd::utf8::*;

verus! {

/// The texts of a list, as a JSON array.
pub open spec fn text_list(texts: Seq<Seq<char>>) -> JsonView {
    JsonView::Array(Seq::new(texts.len(), |i: int| JsonView::Text(texts[i])))
}

proof fn lemma_text_list(texts: Seq<Seq<char>>)
    ensures
        texts_json(texts) == text_list(texts),
{
    assert(texts_json(texts)->Array_0 =~= text_list(texts)->Array_0);
}

/// How readers are written: everyone by that word, others by a list of them.
pub open spec fn written_readers(readers: ReadersView) -> JsonView {
    match readers {
        ReadersView::Everyone => JsonView::Text("everyone"@),
        ReadersView::Only(names) => JsonView::Object(seq![("only"@, text_list(listed(names)))]),
    }
}

/// An unknown label says nothing but that; a known one says its realm and its readers, everyone
/// or the listed ones.
pub proof fn labels_are_written_in_full(label: LabelView)
    ensures
        match label {
            LabelView::Unknown => label.json() == JsonView::Object(
                seq![("kind"@, JsonView::Text("unknown"@))],
            ),
            LabelView::Known { realm, readers } => label.json() == JsonView::Object(
                seq![
                    ("kind"@, JsonView::Text("known"@)),
                    ("realm"@, JsonView::Text(realm)),
                    ("readers"@, written_readers(readers)),
                ],
            ),
        },
{
    if let LabelView::Known { realm, readers } = label {
        if let ReadersView::Only(names) = readers {
            lemma_text_list(listed(names));
        }
        assert(readers.json() == written_readers(readers));
        assert(label.json()->Object_0 =~= seq![
            ("kind"@, JsonView::Text("known"@)),
            ("realm"@, JsonView::Text(realm)),
            ("readers"@, written_readers(readers)),
        ]);
    }
}

/// The readers of a set are listed in ascending order, each once, and no one else is.
pub proof fn readers_are_listed_in_order(list: Seq<String>)
    requires
        ascending(list),
    ensures
        listed(name_set(list)) == views(list),
{
    let chosen = choose|other: Seq<String>| #[trigger]
        ascending(other) && name_set(other) == name_set(list);
    assert(ascending(list) && name_set(list) == name_set(list));
    names_are_canonical(chosen, list);
    assert(views(chosen) =~= views(list));
}

/// A record says its version, its name, its operation, its label, its dependencies by role and
/// whether its inputs are all known; its context and its digest, or null where there is none; and
/// the rest only where it applies. It says nothing else.
pub proof fn records_are_written_in_full(record: RecordView)
    ensures
        ({
            let fields = record.json()->Object_0;
            &&& record.json() is Object
            &&& fields.contains(("version"@, JsonView::Number(decimal(record.version as nat))))
            &&& fields.contains(("id"@, JsonView::Text(record.id)))
            &&& fields.contains(
                ("operation"@, JsonView::Text(written_operation(record.operation))),
            )
            &&& fields.contains(("label"@, record.label.json()))
            &&& fields.contains(("inputs_complete"@, JsonView::Bool(record.inputs_complete)))
            &&& fields.contains(
                (
                    "context_ref"@,
                    if record.context_ref is Some {
                        JsonView::Text(record.context_ref->Some_0)
                    } else {
                        JsonView::Null
                    },
                ),
            )
            &&& fields.contains(
                (
                    "content_digest"@,
                    if record.content_digest is Some {
                        JsonView::Text(record.content_digest->Some_0)
                    } else {
                        JsonView::Null
                    },
                ),
            )
            &&& fields.contains(
                (
                    "dependencies"@,
                    JsonView::Object(
                        seq![
                            ("inputs"@, text_list(record.dependencies.inputs)),
                            ("instructions"@, text_list(record.dependencies.instructions)),
                            ("history"@, text_list(record.dependencies.history)),
                            ("schemas"@, text_list(record.dependencies.schemas)),
                            ("settings"@, text_list(record.dependencies.settings)),
                            ("control"@, text_list(record.dependencies.control)),
                        ],
                    ),
                ),
            )
            &&& record.domain matches Some(domain) ==> fields.contains(
                (
                    "domain"@,
                    JsonView::Object(
                        seq![
                            ("audience"@, domain.audience.json()),
                            ("retained_context"@, domain.retained_context.json()),
                            ("policy_epoch"@, JsonView::Text(domain.policy_epoch)),
                        ],
                    ),
                ),
            )
            &&& record.decision matches Some(decision) ==> fields.contains(
                (
                    "decision"@,
                    JsonView::Text(
                        if decision == Decision::WouldAllow {
                            "would_allow"@
                        } else {
                            "would_deny"@
                        },
                    ),
                ),
            )
            &&& record.exposure matches Some(exposure) ==> fields.contains(
                (
                    "exposure"@,
                    JsonView::Text(
                        if exposure == Exposure::Delivered {
                            "delivered"@
                        } else {
                            "withheld"@
                        },
                    ),
                ),
            )
            &&& record.checked_ref matches Some(reference) ==> fields.contains(
                ("checked_ref"@, JsonView::Text(reference)),
            )
            &&& record.destination matches Some(destination) ==> fields.contains(
                ("destination"@, destination.json()),
            )
            &&& fields.len() == 8 + count(record.domain is Some) + count(record.decision is Some)
                + count(record.exposure is Some) + count(record.checked_ref is Some) + count(
                record.destination is Some,
            )
        }),
{
    let fields = record.json()->Object_0;
    let d = record.dependencies;
    lemma_text_list(d.inputs);
    lemma_text_list(d.instructions);
    lemma_text_list(d.history);
    lemma_text_list(d.schemas);
    lemma_text_list(d.settings);
    lemma_text_list(d.control);
    assert(fields.contains(fields[0]));
    assert(fields.contains(fields[1]));
    assert(fields.contains(fields[2]));
    assert(fields.contains(fields[3]));
    assert(fields.contains(fields[4]));
    assert(fields.contains(fields[5]));
    assert(fields.contains(fields[6]));
    assert(fields.contains(fields[7]));
    let a = 8 + count(record.domain is Some);
    let b = a + count(record.decision is Some);
    let c = b + count(record.exposure is Some);
    let e = c + count(record.checked_ref is Some);
    if record.domain is Some {
        assert(fields.contains(fields[8]));
    }
    if record.decision is Some {
        assert(fields.contains(fields[a as int]));
    }
    if record.exposure is Some {
        assert(fields.contains(fields[b as int]));
    }
    if record.checked_ref is Some {
        assert(fields.contains(fields[c as int]));
    }
    if record.destination is Some {
        assert(fields.contains(fields[e as int]));
    }
}

/// One for a field that is there, none for one that is not.
pub open spec fn count(there: bool) -> nat {
    if there {
        1
    } else {
        0
    }
}

/// How an operation is written.
pub open spec fn written_operation(operation: Operation) -> Seq<char> {
    if operation == Operation::Source {
        "source"@
    } else if operation == Operation::EnterContext {
        "enter_context"@
    } else if operation == Operation::Exposure {
        "exposure"@
    } else if operation == Operation::ModelCall {
        "model_call"@
    } else if operation == Operation::ModelOutput {
        "model_output"@
    } else if operation == Operation::ToolRequest {
        "tool_request"@
    } else if operation == Operation::ToolResult {
        "tool_result"@
    } else if operation == Operation::Error {
        "error"@
    } else {
        "publication_check"@
    }
}

/// Operations, decisions and exposures are told apart by their names.
pub proof fn names_tell_operations_apart(
    left: Operation,
    right: Operation,
    decision: Decision,
    other: Decision,
    exposure: Exposure,
    actual: Exposure,
)
    ensures
        operation_name(left) == operation_name(right) <==> left == right,
        decision_name(decision) == decision_name(other) <==> decision == other,
        exposure_name(exposure) == exposure_name(actual) <==> exposure == actual,
{
    reveal_strlit("source");
    reveal_strlit("enter_context");
    reveal_strlit("exposure");
    reveal_strlit("model_call");
    reveal_strlit("model_output");
    reveal_strlit("tool_request");
    reveal_strlit("tool_result");
    reveal_strlit("error");
    reveal_strlit("publication_check");
    reveal_strlit("would_allow");
    reveal_strlit("would_deny");
    reveal_strlit("delivered");
    reveal_strlit("withheld");
    assert("source"@.len() == 6);
    assert("enter_context"@.len() == 13);
    assert("exposure"@.len() == 8);
    assert("model_call"@.len() == 10);
    assert("model_output"@.len() == 12);
    assert("tool_request"@.len() == 12);
    assert("tool_result"@.len() == 11);
    assert("error"@.len() == 5);
    assert("publication_check"@.len() == 17);
    assert("model_output"@[0] == 'm');
    assert("tool_request"@[0] == 't');
    assert("would_allow"@.len() == 11);
    assert("would_deny"@.len() == 10);
    assert("delivered"@.len() == 9);
    assert("withheld"@.len() == 8);
}

/// A number below ten is its digit; any other is its tens, and behind them the digit of its ones.
pub proof fn numbers_are_written_in_decimal(n: nat, ones: nat)
    requires
        ones < 10,
    ensures
        decimal(ones) == seq!["0123456789"@[ones as int]],
        n > 0 ==> decimal(10 * n + ones) == decimal(n).push("0123456789"@[ones as int]),
{
    assert((10 * n + ones) / 10 == n);
    assert((10 * n + ones) % 10 == ones);
}

/// A line is the encoding of a value's text with one byte behind it, a line feed.
pub proof fn lines_end_in_a_line_feed(value: JsonView)
    ensures
        line_of(value).last() == 10u8,
        line_of(value).drop_last() == encode_utf8(json_text(value)),
{
    assert(line_of(value).drop_last() =~= encode_utf8(json_text(value)));
}

} // verus!
