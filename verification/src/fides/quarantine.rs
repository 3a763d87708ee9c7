//! The quarantined model call: what is asked, and what becomes of the reply.
use crate::fides::invocation::{InvocationView, ToolInvocation};
use crate::fides::message::{
    fails_plainly, outcome, security_error, text_item, CallToolResult, ContentItem, ResultView,
    SecurityError,
};
use crate::fides::references::QUARANTINED_LLM;
use crate::json::{json_text, JsonView};
use crate::text::same_text;
use crate::views::views;
use vstd::prelude::*;

verus! {

/// What a quarantined model is told.
pub const QUARANTINE_SYSTEM: &'static str = "Analyze the supplied data according to the request. You have no tools. Your response retains the inputs' security label.";

/// A model call with one message, no history and no tools.
#[derive(Debug, PartialEq, Eq)]
pub struct QuarantineRequest {
    pub system: String,
    pub prompt: String,
}

#[verifier::ext_equal]
pub struct QuarantineView {
    pub system: Seq<char>,
    pub prompt: Seq<char>,
}

impl View for QuarantineRequest {
    type V = QuarantineView;

    open spec fn view(&self) -> QuarantineView {
        QuarantineView { system: self.system@, prompt: self.prompt@ }
    }
}

/// The call that an invocation of the quarantine tool leads to. None is made for another tool,
/// for a blocked call or to a model that brings a context of its own.
pub open spec fn quarantine_of(invocation: InvocationView, manages_own_context: bool) -> Option<
    QuarantineView,
> {
    if invocation.name == QUARANTINED_LLM@ && !invocation.blocked && !manages_own_context {
        Some(
            QuarantineView {
                system: QUARANTINE_SYSTEM@,
                prompt: json_text(invocation.quarantine_prompt()),
            },
        )
    } else {
        None
    }
}

/// The model call that an invocation leads to.
pub fn quarantine_request(invocation: &ToolInvocation, manages_own_context: bool) -> (result: Result<
    QuarantineRequest,
    SecurityError,
>)
    ensures
        fails_plainly(result),
        outcome(result) == quarantine_of(invocation@, manages_own_context),
{
    if !same_text(invocation.name.as_str(), QUARANTINED_LLM) || invocation.blocked
        || manages_own_context {
        return Err(security_error());
    }
    Ok(
        QuarantineRequest {
            system: QUARANTINE_SYSTEM.to_owned(),
            prompt: invocation.quarantine_prompt().text(),
        },
    )
}

/// What a reply is made of, as far as it matters here.
#[derive(Clone, Copy, Debug, PartialEq, Eq, Structural)]
pub enum ReplyContent {
    /// A request to call a tool.
    ToolRequest,
    /// Anything else.
    Other,
}

/// The reply of a model: its pieces in order and the text of all of it.
#[derive(Debug)]
pub struct Reply {
    pub content: Vec<ReplyContent>,
    pub text: String,
}

/// The result that a reply leads to. None where the call failed or the reply asks for a tool:
/// such a request goes nowhere.
pub open spec fn reply_result(reply: Option<Reply>) -> Option<ResultView> {
    match reply {
        Some(reply) => if reply.content@.contains(ReplyContent::ToolRequest) {
            None
        } else {
            Some(ResultView::complete(seq![text_item(reply.text@)], false))
        },
        None => None,
    }
}

/// The result that a reply leads to; the call failed where there is no reply.
pub fn quarantine_result(reply: Option<Reply>) -> (result: Result<CallToolResult, SecurityError>)
    ensures
        fails_plainly(result),
        outcome(result) == reply_result(reply),
{
    let given = match reply {
        Some(given) => given,
        None => return Err(security_error()),
    };
    let mut i: usize = 0;
    while i < given.content.len()
        invariant
            i <= given.content.len(),
            reply == Some(given),
            forall|j: int| 0 <= j < i ==> given.content@[j] != ReplyContent::ToolRequest,
        decreases given.content.len() - i,
    {
        if given.content[i] == ReplyContent::ToolRequest {
            return Err(security_error());
        }
        i = i + 1;
    }
    let mut content: Vec<ContentItem> = Vec::new();
    content.push(ContentItem::text(given.text));
    assert(views(content@) =~= seq![text_item(given.text@)]);
    Ok(CallToolResult::success(content))
}

/// A reply is taken exactly where there is one and no piece of it asks for a tool; the result is
/// then its text and nothing else, and reports no error.
pub proof fn replies_that_ask_for_tools_are_refused(reply: Reply)
    ensures
        reply_result(None) is None,
        reply_result(Some(reply)) is Some <==> forall|i: int|
            0 <= i < reply.content@.len() ==> #[trigger] reply.content@[i]
                != ReplyContent::ToolRequest,
        reply_result(Some(reply)) matches Some(result) ==> {
            &&& result.content == seq![
                seq![
                    ("text"@, JsonView::Text(reply.text@)),
                    ("type"@, JsonView::Text("text"@)),
                ],
            ]
            &&& result.is_error == Some(false)
            &&& result.structured_content is None
            &&& result.meta is None
            &&& result.result_type == Some("complete"@)
        },
{
    if exists|i: int|
        0 <= i < reply.content@.len() && reply.content@[i] == ReplyContent::ToolRequest {
        let i = choose|i: int|
            0 <= i < reply.content@.len() && reply.content@[i] == ReplyContent::ToolRequest;
        assert(reply.content@.contains(ReplyContent::ToolRequest));
    }
}

} // verus!
