//! JSON-RPC 2.0 messages between the host, the plugin runtimes and the renderer,
//! with the SDK method names and the error codes the host answers with.
use vstd::prelude::*;
use crate::json::JsonValue;

verus! {

/// A JSON-RPC request (a command to the renderer or from a plugin).
pub struct IpcRequest {
    pub jsonrpc: String,
    pub method: String,
    pub params: JsonValue,
    pub id: u64,
}

/// A JSON-RPC response: a result or an error.
pub struct IpcResponse {
    pub jsonrpc: String,
    pub result: Option<JsonValue>,
    pub error: Option<IpcErrorPayload>,
    pub id: u64,
}

/// The error member of a JSON-RPC response.
pub struct IpcErrorPayload {
    pub code: i32,
    pub message: String,
    pub data: Option<JsonValue>,
}

/// A JSON-RPC notification (no id, no answer expected).
pub struct IpcNotification {
    pub jsonrpc: String,
    pub method: String,
    pub params: Option<JsonValue>,
}

pub const METHOD_CREATE_RECT: &'static str = "createRect";
pub const METHOD_CREATE_ICON: &'static str = "createIcon";
pub const METHOD_CREATE_TEXT: &'static str = "createText";
pub const METHOD_SET_SCALE: &'static str = "setScale";
pub const METHOD_SET_OPACITY: &'static str = "setOpacity";
pub const METHOD_SET_BLUR: &'static str = "setBlur";
pub const METHOD_ADD_CHILD: &'static str = "addChild";
pub const METHOD_REMOVE_CHILD: &'static str = "removeChild";
pub const METHOD_REMOVE_WIDGET: &'static str = "removeWidget";

/// The JSON-RPC 2.0 standard errors and the host's own.
#[derive(Debug, Clone, Copy, PartialEq, Eq)]
pub enum IpcError {
    /// -32700: the JSON could not be parsed.
    ParseError,
    /// -32600: not a valid JSON-RPC request.
    InvalidRequest,
    /// -32601: no such method.
    MethodNotFound,
    /// -32602: wrong parameter types or missing fields.
    InvalidParams,
    /// -32603: an unexpected internal error.
    InternalError,
    /// -32000: the plugin lacks the permission.
    PermissionDenied,
    /// -32001: no widget with this id.
    WidgetNotFound,
    /// -32002: the runtime is not available.
    RuntimeNotReady,
    /// -32003: the operation timed out.
    Timeout,
}

/// The numeric code of each error.
pub open spec fn error_code(e: IpcError) -> i32 {
    match e {
        IpcError::ParseError => -32700i32,
        IpcError::InvalidRequest => -32600i32,
        IpcError::MethodNotFound => -32601i32,
        IpcError::InvalidParams => -32602i32,
        IpcError::InternalError => -32603i32,
        IpcError::PermissionDenied => -32000i32,
        IpcError::WidgetNotFound => -32001i32,
        IpcError::RuntimeNotReady => -32002i32,
        IpcError::Timeout => -32003i32,
    }
}

/// The message of each error.
pub open spec fn error_message(e: IpcError) -> Seq<char> {
    match e {
        IpcError::ParseError => "Parse error"@,
        IpcError::InvalidRequest => "Invalid request"@,
        IpcError::MethodNotFound => "Method not found"@,
        IpcError::InvalidParams => "Invalid params"@,
        IpcError::InternalError => "Internal error"@,
        IpcError::PermissionDenied => "Permission denied"@,
        IpcError::WidgetNotFound => "Widget not found"@,
        IpcError::RuntimeNotReady => "Runtime not ready"@,
        IpcError::Timeout => "Timeout"@,
    }
}

impl IpcError {
    /// The numeric JSON-RPC code of this error.
    pub fn code(self) -> (c: i32)
        ensures
            c == error_code(self),
    {
        match self {
            IpcError::ParseError => -32700,
            IpcError::InvalidRequest => -32600,
            IpcError::MethodNotFound => -32601,
            IpcError::InvalidParams => -32602,
            IpcError::InternalError => -32603,
            IpcError::PermissionDenied => -32000,
            IpcError::WidgetNotFound => -32001,
            IpcError::RuntimeNotReady => -32002,
            IpcError::Timeout => -32003,
        }
    }

    /// The human-readable message of this error.
    pub fn message(self) -> (m: &'static str)
        ensures
            m@ == error_message(self),
    {
        match self {
            IpcError::ParseError => "Parse error",
            IpcError::InvalidRequest => "Invalid request",
            IpcError::MethodNotFound => "Method not found",
            IpcError::InvalidParams => "Invalid params",
            IpcError::InternalError => "Internal error",
            IpcError::PermissionDenied => "Permission denied",
            IpcError::WidgetNotFound => "Widget not found",
            IpcError::RuntimeNotReady => "Runtime not ready",
            IpcError::Timeout => "Timeout",
        }
    }
}

impl IpcResponse {
    /// A successful response to request `id`.
    pub fn success(id: u64, result: JsonValue) -> (r: Self)
        ensures
            r.jsonrpc@ == "2.0"@,
            r.result == Some(result),
            r.error is None,
            r.id == id,
    {
        IpcResponse { jsonrpc: "2.0".to_owned(), result: Some(result), error: None, id }
    }

    /// An error response to request `id`, with the code and message of `err`.
    pub fn error(id: u64, err: IpcError, data: Option<JsonValue>) -> (r: Self)
        ensures
            r.jsonrpc@ == "2.0"@,
            r.result is None,
            r.id == id,
            r.error matches Some(p) && p.code == error_code(err) && p.message@ == error_message(err)
                && p.data == data,
    {
        IpcResponse {
            jsonrpc: "2.0".to_owned(),
            result: None,
            error: Some(IpcErrorPayload { code: err.code(), message: err.message().to_owned(), data }),
            id,
        }
    }
}

impl IpcRequest {
    /// A JSON-RPC 2.0 request with id 0, as the host issues its own commands.
    pub fn command(method: &str, params: JsonValue) -> (r: Self)
        ensures
            r.jsonrpc@ == "2.0"@,
            r.method@ == method@,
            r.params == params,
            r.id == 0,
    {
        IpcRequest { jsonrpc: "2.0".to_owned(), method: method.to_owned(), params, id: 0 }
    }
}


/// Different errors have different codes, so a code names its error.
pub proof fn lemma_error_codes_distinct(a: IpcError, b: IpcError)
    ensures
        error_code(a) == error_code(b) ==> a == b,
{
}

} // verus!
