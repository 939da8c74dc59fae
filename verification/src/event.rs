//! The event that is sent for a request.

use vstd::prelude::*;
use vstd::string::*;

use crate::headers;
use crate::json::{Json, JsonTree};
use crate::sample_rate::SampleRate;
use crate::text;

verus! {

/// Which key decided the sampling of an event.
#[derive(Debug, Clone, Copy, PartialEq, Eq, Structural)]
pub enum SampleKey {
    SessionRequest,
    SessionResponse,
    SessionHeader,
    Principal,
    UserId,
    Authorization,
    Request,
}

impl SampleKey {
    /// The name of the key on the wire.
    pub open spec fn wire_name(self) -> Seq<char> {
        match self {
            SampleKey::SessionRequest => "session_request"@,
            SampleKey::SessionResponse => "session_response"@,
            SampleKey::SessionHeader => "session_header"@,
            SampleKey::Principal => "principal"@,
            SampleKey::UserId => "user_id"@,
            SampleKey::Authorization => "authorization"@,
            SampleKey::Request => "request"@,
        }
    }

    /// The name of the key on the wire.
    pub fn as_str(&self) -> (r: &'static str)
        ensures
            r@ == self.wire_name(),
    {
        match self {
            SampleKey::SessionRequest => "session_request",
            SampleKey::SessionResponse => "session_response",
            SampleKey::SessionHeader => "session_header",
            SampleKey::Principal => "principal",
            SampleKey::UserId => "user_id",
            SampleKey::Authorization => "authorization",
            SampleKey::Request => "request",
        }
    }
}

/// What is sent for a request.
#[derive(Debug, Clone)]
pub struct CerberusEvent {
    /// Pseudonym of the client address, or the address itself where there is no
    /// secret. `None` where no address could be resolved.
    pub remote_addr: Option<String>,
    /// Request path without query string.
    pub endpoint: String,
    /// True for HTTPS.
    pub scheme: bool,
    /// Uppercased HTTP method.
    pub method: String,
    /// ISO 8601 UTC timestamp of the request's arrival.
    pub timestamp: String,
    /// Sanitized headers, in the order of their names.
    pub headers: Option<Vec<(String, String)>>,
    /// Sanitized query parameters, an object.
    pub query_params: Option<Json>,
    /// Sanitized JSON body.
    pub body: Option<Json>,
    /// User-Agent header, raw.
    pub user_agent: Option<String>,
    /// User identity from the configured header.
    pub user_id: Option<String>,
    /// Upstream HTTP status code. `None` where the response had none.
    pub status_code: Option<u32>,
    /// Milliseconds from the arrival of the request to the end of the response.
    pub latency_ms: Option<u64>,
    /// Sanitized response headers, in the order of their names.
    pub response_headers: Option<Vec<(String, String)>>,
    /// Captured response body: a sanitized JSON value, the sanitized text of an
    /// event stream, or a marker.
    pub response_body: Option<Json>,
    /// MCP session id, where it decided the sampling.
    pub session_id: Option<String>,
    /// Sampling rate in effect, where sampling is active.
    pub sample_rate: Option<SampleRate>,
    /// Which key decided the sampling, where sampling is active.
    pub sample_key: Option<SampleKey>,
}

/// The model of [`CerberusEvent`].
pub struct EventModel {
    pub remote_addr: Option<Seq<char>>,
    pub endpoint: Seq<char>,
    pub scheme: bool,
    pub method: Seq<char>,
    pub timestamp: Seq<char>,
    pub headers: Option<Seq<(Seq<char>, Seq<char>)>>,
    pub query_params: Option<JsonTree>,
    pub body: Option<JsonTree>,
    pub user_agent: Option<Seq<char>>,
    pub user_id: Option<Seq<char>>,
    pub status_code: Option<u32>,
    pub latency_ms: Option<u64>,
    pub response_headers: Option<Seq<(Seq<char>, Seq<char>)>>,
    pub response_body: Option<JsonTree>,
    pub session_id: Option<Seq<char>>,
    pub sample_rate: Option<SampleRate>,
    pub sample_key: Option<SampleKey>,
}

/// What an optional JSON value holds.
pub open spec fn tree_of(j: Option<Json>) -> Option<JsonTree> {
    match j {
        Some(j) => Some(j.tree()),
        None => None,
    }
}

impl CerberusEvent {
    pub open spec fn view(&self) -> EventModel {
        EventModel {
            remote_addr: text::text_of(self.remote_addr),
            endpoint: self.endpoint@,
            scheme: self.scheme,
            method: self.method@,
            timestamp: self.timestamp@,
            headers: headers::optional_pairs(self.headers),
            query_params: tree_of(self.query_params),
            body: tree_of(self.body),
            user_agent: text::text_of(self.user_agent),
            user_id: text::text_of(self.user_id),
            status_code: self.status_code,
            latency_ms: self.latency_ms,
            response_headers: headers::optional_pairs(self.response_headers),
            response_body: tree_of(self.response_body),
            session_id: text::text_of(self.session_id),
            sample_rate: self.sample_rate,
            sample_key: self.sample_key,
        }
    }
}

} // verus!
