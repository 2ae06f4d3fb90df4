//! The server's protocol: the replies it sends, and which request leads
//! to which answer.
use vstd::prelude::*;

pub mod tools;

pub use crate::mcp::tools::is_test_filename;

use crate::text::{chars_of, push_all, string_of};

verus! {

/// The error member of a JSON-RPC reply.
pub struct JsonRpcError {
    pub code: i32,
    pub message: String,
}

/// One piece of a tool's answer: its kind (always "text") and its text.
pub struct ToolContent {
    pub kind: String,
    pub text: String,
}

/// A tool's answer: its content and whether it reports an error.
pub struct ToolResult {
    pub content: Vec<ToolContent>,
    pub is_error: bool,
}

/// Whether a flag is unset (an unset error flag is left out of a reply).
pub fn is_false(b: &bool) -> (r: bool)
    ensures
        r == !*b,
{
    !*b
}

impl ToolResult {
    /// An answer of one text, an error or not.
    pub fn text(text: String, is_error: bool) -> (r: ToolResult)
        ensures
            r.content@.len() == 1,
            r.content@[0].kind@ == "text"@,
            r.content@[0].text@ == text@,
            r.is_error == is_error,
    {
        let mut content: Vec<ToolContent> = Vec::new();
        content.push(ToolContent { kind: String::from_str("text"), text });
        ToolResult { content, is_error }
    }
}

/// What the server does with a request.
#[derive(Debug, Clone, Copy, PartialEq, Eq, Structural)]
pub enum Route {
    /// Reply with the server's name, version and capabilities.
    Initialize,
    /// Reply with an empty result.
    Ping,
    /// Reply with the tool definitions.
    ToolsList,
    /// Run the tool the request names.
    ToolsCall,
    /// Reply with error -32601.
    MethodNotFound,
}

/// The route of a request with method `m`; a request without an id is a
/// notification and gets no reply.
pub open spec fn route_of(m: Seq<char>, has_id: bool) -> Option<Route> {
    if !has_id {
        None
    } else if m == "initialize"@ {
        Some(Route::Initialize)
    } else if m == "ping"@ {
        Some(Route::Ping)
    } else if m == "tools/list"@ {
        Some(Route::ToolsList)
    } else if m == "tools/call"@ {
        Some(Route::ToolsCall)
    } else {
        Some(Route::MethodNotFound)
    }
}

/// What the server does with a request of method `method`: nothing for a
/// notification, else the route of the method.
pub fn route_request(method: &str, has_id: bool) -> (r: Option<Route>)
    ensures
        r == route_of(method@, has_id),
{
    if !has_id {
        None
    } else if crate::text::str_is(method, "initialize") {
        Some(Route::Initialize)
    } else if crate::text::str_is(method, "ping") {
        Some(Route::Ping)
    } else if crate::text::str_is(method, "tools/list") {
        Some(Route::ToolsList)
    } else if crate::text::str_is(method, "tools/call") {
        Some(Route::ToolsCall)
    } else {
        Some(Route::MethodNotFound)
    }
}

/// The code of the error for an unknown method.
pub const METHOD_NOT_FOUND: i32 = -32601;

/// The error for an unknown method.
pub fn method_not_found(method: &str) -> (r: JsonRpcError)
    ensures
        r.code == METHOD_NOT_FOUND,
        r.message@ == "method not found: "@ + method@,
{
    let mut m = chars_of("method not found: ");
    let c = chars_of(method);
    push_all(&mut m, c.as_slice());
    JsonRpcError { code: METHOD_NOT_FOUND, message: string_of(m.as_slice()) }
}

/// The tools of the server.
#[derive(Debug, Clone, Copy, PartialEq, Eq, Structural)]
pub enum Tool {
    Xray,
    Radar,
    Ripple,
}

/// The tool named `name`.
pub open spec fn tool_of(name: Seq<char>) -> Option<Tool> {
    if name == "xray"@ {
        Some(Tool::Xray)
    } else if name == "radar"@ {
        Some(Tool::Radar)
    } else if name == "ripple"@ {
        Some(Tool::Ripple)
    } else {
        None
    }
}

/// The tool a call names, if there is one by that name.
pub fn tool_named(name: &str) -> (r: Option<Tool>)
    ensures
        r == tool_of(name@),
{
    if crate::text::str_is(name, "xray") {
        Some(Tool::Xray)
    } else if crate::text::str_is(name, "radar") {
        Some(Tool::Radar)
    } else if crate::text::str_is(name, "ripple") {
        Some(Tool::Ripple)
    } else {
        None
    }
}

/// The answer to a call of an unknown tool.
pub fn unknown_tool(name: &str) -> (r: ToolResult)
    ensures
        r.content@.len() == 1,
        r.content@[0].kind@ == "text"@,
        r.content@[0].text@ == "unknown tool: "@ + name@,
        r.is_error,
{
    let mut m = chars_of("unknown tool: ");
    let c = chars_of(name);
    push_all(&mut m, c.as_slice());
    ToolResult::text(string_of(m.as_slice()), true)
}

/// The depth of a ripple call: the one asked for, kept within 1 to 3, and
/// 1 when none was given.
pub fn ripple_depth(asked: Option<u64>) -> (r: u32)
    ensures
        r == match asked {
            Some(d) => if d < 1 {
                1
            } else if d > 3 {
                3
            } else {
                d
            },
            None => 1,
        },
{
    match asked {
        Some(d) => if d < 1 {
            1
        } else if d > 3 {
            3
        } else {
            d as u32
        },
        None => 1,
    }
}

} // verus!
