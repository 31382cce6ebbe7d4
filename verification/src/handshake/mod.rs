//! The opening handshake on the server's side.

pub mod agreement;
pub mod connection_status;
pub mod request_line;
pub mod response_line;

pub use connection_status::ConnectionStatus;
pub use request_line::RequestLine;
pub use response_line::ResponseLine;

use crate::handshake::request_line::{names_version_13, parsed_request};
use crate::headers::{header_fields, lookup, map_of};
use crate::handshake::response_line::{
    key_fits, refusing_response, switching_response, ResponseView,
};
use vstd::prelude::*;

verus! {

/// How the server answers an upgrade request: the request where it was
/// accepted, the answer to send, and the state the connection is in.
pub struct HandShake {
    pub request: Option<RequestLine>,
    pub response: ResponseLine,
    pub state: ConnectionStatus,
}

/// The client's key in a request that the server accepts: the request
/// parses, it has the field `sec-websocket-key`, and the key is short
/// enough to be hashed.
pub open spec fn accepted_key(text: Seq<char>) -> Option<Seq<char>> {
    match parsed_request(text) {
        Some(request) => match lookup(request.headers, "sec-websocket-key"@) {
            Some(key) => if key_fits(key) {
                Some(key)
            } else {
                None
            },
            None => None,
        },
        None => None,
    }
}

/// The answer that refuses an upgrade: 400 Bad Request, without fields.
pub open spec fn bad_request() -> ResponseView {
    refusing_response(400, "Bad Request"@)
}

impl HandShake {
    /// Answers an upgrade request. A request that is accepted is answered
    /// with 101 and the accept key for its key, and the connection is
    /// `Connecting` until the answer is written. Every other request is
    /// answered with 400, and the connection is `Closing`.
    pub fn perform(full_request: &str) -> (handshake: HandShake)
        ensures
            match accepted_key(full_request@) {
                Some(key) => {
                    &&& handshake.state == ConnectionStatus::Connecting
                    &&& handshake.request matches Some(request) && Some(request@) == parsed_request(
                        full_request@,
                    )
                    &&& handshake.response@ == switching_response(key)
                },
                None => {
                    &&& handshake.state == ConnectionStatus::Closing
                    &&& handshake.request is None
                    &&& handshake.response@ == bad_request()
                },
            },
            !names_version_13(map_of(header_fields(full_request@))) ==> {
                &&& handshake.state == ConnectionStatus::Closing
                &&& handshake.response@.status_code == 400
                &&& handshake.response@.headers is None
            },
    {
        if let Some(request) = RequestLine::from_request(full_request) {
            let accept_key = match request.headers.get("sec-websocket-key") {
                Some(web_socket_key) => ResponseLine::accept_key(web_socket_key.as_str()),
                None => None,
            };
            if let Some(accept_key) = accept_key {
                let response = ResponseLine::switching(accept_key);
                return HandShake {
                    request: Some(request),
                    response,
                    state: ConnectionStatus::Connecting,
                };
            }
        }
        let response = ResponseLine::err_build(400, "Bad Request");
        HandShake { request: None, response, state: ConnectionStatus::Closing }
    }

    /// Answers an upgrade request, as `perform` does.
    pub fn build(full_request: &str) -> (handshake: HandShake)
        ensures
            match accepted_key(full_request@) {
                Some(key) => {
                    &&& handshake.state == ConnectionStatus::Connecting
                    &&& handshake.request matches Some(request) && Some(request@) == parsed_request(
                        full_request@,
                    )
                    &&& handshake.response@ == switching_response(key)
                },
                None => {
                    &&& handshake.state == ConnectionStatus::Closing
                    &&& handshake.request is None
                    &&& handshake.response@ == bad_request()
                },
            },
    {
        Self::perform(full_request)
    }
}

} // verus!
