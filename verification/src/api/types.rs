//! Error values and transport request/response descriptions of the API.

use vstd::prelude::*;
use crate::json::{lemma_object_view, members_view, Json, JsonValue};
use crate::text::{chars_of, from_utf8_lossy, string_of, utf8_lossy};

verus! {

broadcast use vstd::string::group_string_axioms;

/// A transport request: always `GET`, with headers and a timeout.
#[derive(Debug, Clone)]
pub struct FetchSpec {
    pub url: String,
    pub headers: Vec<(String, String)>,
    pub timeout_ms: u64,
}

impl FetchSpec {
    /// A `GET` of JSON: the one header `accept: application/json`.
    pub fn get_json(url: String, timeout_ms: u64) -> (r: FetchSpec)
        ensures
            r.url@ == url@,
            r.timeout_ms == timeout_ms,
            r.headers@.len() == 1,
            r.headers@[0].0@ == "accept"@,
            r.headers@[0].1@ == "application/json"@,
    {
        let mut headers: Vec<(String, String)> = Vec::new();
        headers.push(
            (
                string_of(chars_of("accept").as_slice()),
                string_of(chars_of("application/json").as_slice()),
            ),
        );
        FetchSpec { url, headers, timeout_ms }
    }
}

/// A transport response: status code and body bytes.
#[derive(Debug, Clone)]
pub struct FetchResponse {
    pub status: u16,
    pub body: Vec<u8>,
}

impl FetchResponse {
    /// The body read as UTF-8, invalid sequences replaced.
    pub fn text(&self) -> (r: String)
        ensures
            r@ == utf8_lossy(self.body@),
            vstd::utf8::valid_utf8(self.body@) ==> r@ == vstd::utf8::decode_utf8(self.body@),
    {
        from_utf8_lossy(self.body.as_slice())
    }
}

/// Host hooks that add nothing.
#[derive(Debug, Clone, Copy)]
pub struct NoopHooks;

/// An API error: HTTP status and message.
#[derive(Clone, Debug, PartialEq, Eq)]
pub struct ApiError {
    pub status: u16,
    pub message: String,
}

impl ApiError {
    /// An error with the given status and message.
    pub fn new(status: u16, message: &str) -> (e: ApiError)
        ensures
            e.status == status && e.message@ == message@,
    {
        ApiError { status, message: string_of(chars_of(message).as_slice()) }
    }

    /// 404 Not Found.
    pub fn not_found(message: &str) -> (e: ApiError)
        ensures
            e.status == 404 && e.message@ == message@,
    {
        Self::new(404, message)
    }

    /// 500 Internal Server Error.
    pub fn internal(message: &str) -> (e: ApiError)
        ensures
            e.status == 500 && e.message@ == message@,
    {
        Self::new(500, message)
    }

    /// 504: the request timed out.
    pub fn timeout() -> (e: ApiError)
        ensures
            e.status == 504 && e.message@ == "request timed out"@,
    {
        Self::new(504, "request timed out")
    }

    /// 503: the API is shutting down.
    pub fn unavailable() -> (e: ApiError)
        ensures
            e.status == 503 && e.message@ == "api is shutting down"@,
    {
        Self::new(503, "api is shutting down")
    }

    /// The JSON body that answers with this error: `{"error": message}`.
    pub fn error_body(&self) -> (r: JsonValue)
        ensures
            r@ == Json::Object(seq![("error"@, Json::Str(self.message@))]),
    {
        let es = vec![
            (string_of(chars_of("error").as_slice()), JsonValue::Str(string_of(chars_of(self.message.as_str()).as_slice()))),
        ];
        proof {
            lemma_object_view(es);
        }
        assert(members_view(es@) =~= seq![("error"@, Json::Str(self.message@))]);
        JsonValue::Object(es)
    }
}

} // verus!
