//! What a tool call answers.

use crate::json::{render, ToJson};
use crate::text::owned;
use rmcp::model::{CallToolResult, ContentBlock};
use vstd::prelude::*;

verus! {

/// The answer of a tool: one text, and whether it reports an error.
///
/// An error of a tool is an answer like any other, never a failure of the
/// protocol.
pub struct ToolReply {
    pub is_error: bool,
    pub text: String,
}

/// What a [`ToolReply`] stands for.
pub struct ReplyModel {
    pub is_error: bool,
    pub text: Seq<char>,
}

impl View for ToolReply {
    type V = ReplyModel;

    open spec fn view(&self) -> ReplyModel {
        ReplyModel { is_error: self.is_error, text: self.text@ }
    }
}

/// The answer that reports an error.
pub open spec fn failure(text: Seq<char>) -> ReplyModel {
    ReplyModel { is_error: true, text }
}

/// The answer that holds a result.
pub open spec fn success(text: Seq<char>) -> ReplyModel {
    ReplyModel { is_error: false, text }
}

/// The answer that reports an error.
pub fn tool_error(msg: &str) -> (r: ToolReply)
    ensures
        r@ == failure(msg@),
{
    ToolReply { is_error: true, text: owned(msg) }
}

/// The answer that holds a text as its result.
pub fn tool_success_text(text: String) -> (r: ToolReply)
    ensures
        r@ == success(text@),
{
    ToolReply { is_error: false, text }
}

/// The answer that holds a value as its result, in compact JSON.
pub fn tool_success_json<T: ToJson>(v: &T) -> (r: ToolReply)
    ensures
        r@ == success(render(T::json_of(v@))),
{
    tool_success_text(v.to_json().to_text())
}

// ----- the protocol's own answer -----

#[verifier::external_type_specification]
#[verifier::external_body]
pub struct ExCallToolResult(CallToolResult);

/// What `rmcp::model::CallToolResult::error` makes of one block of text.
pub uninterp spec fn protocol_error(text: Seq<char>) -> CallToolResult;

/// What `rmcp::model::CallToolResult::success` makes of one block of text.
pub uninterp spec fn protocol_success(text: Seq<char>) -> CallToolResult;

/// `rmcp::model::CallToolResult::error` on one block of text.
///
/// Claimed of it: the result is made from the text alone.
#[verifier::external_body]
fn call_error(text: String) -> (r: CallToolResult)
    ensures
        r == protocol_error(text@),
{
    CallToolResult::error(vec![ContentBlock::text(text)])
}

/// `rmcp::model::CallToolResult::success` on one block of text.
///
/// Claimed of it: the result is made from the text alone.
#[verifier::external_body]
fn call_success(text: String) -> (r: CallToolResult)
    ensures
        r == protocol_success(text@),
{
    CallToolResult::success(vec![ContentBlock::text(text)])
}

impl ToolReply {
    /// The answer as the protocol has it.
    pub fn into_call_tool_result(self) -> (r: CallToolResult)
        ensures
            r == if self.is_error {
                protocol_error(self.text@)
            } else {
                protocol_success(self.text@)
            },
    {
        if self.is_error {
            call_error(self.text)
        } else {
            call_success(self.text)
        }
    }
}

} // verus!
