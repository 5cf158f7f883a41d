//! The errors that the server answers requests with.

use vstd::prelude::*;

verus! {

/// A JSON-RPC error: its server error code and its message.
#[derive(Debug)]
pub struct RpcError {
    pub code: i64,
    pub message: String,
}

/// The namespace of the server's errors.
pub struct LanguageServerError;

impl LanguageServerError {
    /// The error for a request that needs a base shader file.
    pub fn not_shader_error() -> (r: RpcError)
        ensures
            r.code == -20002,
            r.message@ == "This is not a base shader file"@,
    {
        RpcError { code: -20002, message: "This is not a base shader file".to_owned() }
    }

    /// The error for a command the server does not know.
    pub fn invalid_command_error() -> (r: RpcError)
        ensures
            r.code == -20101,
            r.message@ == "Invalid command"@,
    {
        RpcError { code: -20101, message: "Invalid command".to_owned() }
    }

    /// The error for a command argument the server cannot use.
    pub fn invalid_argument_error() -> (r: RpcError)
        ensures
            r.code == -20102,
            r.message@ == "Invalid command argument"@,
    {
        RpcError { code: -20102, message: "Invalid command argument".to_owned() }
    }
}

} // verus!
