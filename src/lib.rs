//! Client library for a chat-completion service whose streamed answers
//! arrive as server-sent-event frames.
pub mod api;
pub mod error;
pub mod framing;
pub mod session;

use vstd::prelude::*;
use vstd::string::StringExecFns;

verus! {

/// Where the service is reached and with which key.
#[derive(Debug, Clone)]
pub struct LlmSdk {
    /// The service's base address; request paths are appended to it.
    pub base_url: String,
    /// The bearer key sent with every request.
    pub key: String,
}

/// The base address that `LlmSdk::new` uses.
pub open spec fn default_base_url() -> Seq<char> {
    "http://ark.cn-beijing.volces.com/api/v3"@
}

impl LlmSdk {
    /// A client for the default service address, authenticated with `key`.
    pub fn new(key: String) -> (r: Self)
        ensures
            r.key == key,
            r.base_url@ == default_base_url(),
    {
        LlmSdk { key, base_url: String::from_str("http://ark.cn-beijing.volces.com/api/v3") }
    }

    /// The address of the chat-completion endpoint.
    pub fn chat_completions_url(&self) -> (r: String)
        ensures
            r@ == self.base_url@ + "/chat/completions"@,
    {
        self.base_url.clone().concat("/chat/completions")
    }

    /// The address of the embeddings endpoint.
    pub fn embeddings_url(&self) -> (r: String)
        ensures
            r@ == self.base_url@ + "/embeddings"@,
    {
        self.base_url.clone().concat("/embeddings")
    }
}

/// A request that the service answered with a client or server error.
#[derive(Debug, Clone)]
pub struct ApiError {
    /// The HTTP status code.
    pub status: u16,
    /// The text of the response body.
    pub body: String,
}

/// Whether an HTTP status code is a client (4xx) or server (5xx) error.
pub open spec fn error_status(status: u16) -> bool {
    400 <= status <= 599
}

/// Whether an HTTP status code is a client (4xx) or server (5xx) error.
pub fn is_error_status(status: u16) -> (r: bool)
    ensures
        r == error_status(status),
{
    400 <= status && status <= 599
}

/// Accepts a response unless its status is a client or server error, which
/// is surfaced with its status code and body text.
pub fn check_status(status: u16, body: String) -> (r: Result<(), ApiError>)
    ensures
        r is Ok <==> !error_status(status),
        r matches Err(e) ==> e.status == status && e.body == body,
{
    if is_error_status(status) {
        Err(ApiError { status, body })
    } else {
        Ok(())
    }
}

} // verus!
