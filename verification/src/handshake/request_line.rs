//! The client's upgrade request, as the server reads it.

use crate::headers::{header_fields, map_of, Headers};
use crate::text::{
    ascii_lowercase, chars_of, equal, find, find_in, lines, lowercase, parse_number,
    parse_unsigned, split_lines, split_words, string_of, words,
};
use vstd::prelude::*;

verus! {

/// An upgrade request that passed the server's checks: the request target
/// and the header fields, their names in lower case.
#[derive(Debug)]
pub struct RequestLine {
    pub resource: String,
    pub headers: Headers,
}

/// The mathematical value of a request: its target and its header fields
/// in their order.
#[verifier::ext_equal]
pub struct RequestView {
    pub resource: Seq<char>,
    pub headers: Seq<(Seq<char>, Seq<char>)>,
}

impl View for RequestLine {
    type V = RequestView;

    open spec fn view(&self) -> RequestView {
        RequestView { resource: self.resource@, headers: self.headers.entries() }
    }
}

/// The request target of a request: the second of the three words of its
/// first line, where the first word is `GET`.
pub open spec fn request_target(text: Seq<char>) -> Option<Seq<char>> {
    if lines(text).len() == 0 {
        None
    } else {
        let parts = words(lines(text)[0]);
        if parts.len() == 3 && parts[0] == "GET"@ {
            Some(parts[1])
        } else {
            None
        }
    }
}

/// Whether the fields name version 13 of the protocol.
pub open spec fn names_version_13(fields: Map<Seq<char>, Seq<char>>) -> bool {
    fields.contains_key("sec-websocket-version"@) && parse_unsigned(
        fields["sec-websocket-version"@],
        255,
    ) == Some(13nat)
}

/// What the server finds in the fields of a request. It asks, in this
/// order, for `sec-websocket-version` with the number 13, for `upgrade`
/// with `websocket` in any case, and for `connection` with a value that
/// holds `upgrade` in any case.
pub open spec fn request_fields_verdict(fields: Map<Seq<char>, Seq<char>>) -> Result<
    (),
    Seq<char>,
> {
    if !fields.contains_key("sec-websocket-version"@) {
        Err("Missing WebSocket Version"@)
    } else if !names_version_13(fields) {
        Err("Invalid WebSocket Version"@)
    } else if !fields.contains_key("upgrade"@) {
        Err("Missing Upgrade Header"@)
    } else if ascii_lowercase(fields["upgrade"@]) != "websocket"@ {
        Err("Invalid Upgrade Value"@)
    } else if !fields.contains_key("connection"@) {
        Err("Missing Connection Header"@)
    } else if find(ascii_lowercase(fields["connection"@]), "upgrade"@) is None {
        Err("Invalid Connection Value"@)
    } else {
        Ok(())
    }
}

/// What a request parses to: its target and its fields, where the first
/// line is well formed and the fields pass the server's checks.
pub open spec fn parsed_request(text: Seq<char>) -> Option<RequestView> {
    match request_target(text) {
        Some(resource) => if request_fields_verdict(map_of(header_fields(text))) is Ok {
            Some(RequestView { resource, headers: header_fields(text) })
        } else {
            None
        },
        None => None,
    }
}

impl RequestLine {
    /// A request with an empty target and no fields.
    pub fn new() -> (request: RequestLine)
        ensures
            request@ == (RequestView { resource: Seq::empty(), headers: Seq::empty() }),
    {
        RequestLine { resource: String::new(), headers: Headers::new() }
    }

    /// Parses and checks an upgrade request.
    pub fn from_request(full_request: &str) -> (request: Option<RequestLine>)
        ensures
            match request {
                Some(r) => parsed_request(full_request@) == Some(r@),
                None => parsed_request(full_request@) is None,
            },
    {
        let chars = chars_of(full_request);
        let all_lines = split_lines(chars.as_slice());
        if all_lines.len() == 0 {
            return None;
        }
        let parts = split_words(all_lines[0].as_slice());
        if parts.len() != 3 {
            return None;
        }
        let get = chars_of("GET");
        if !equal(parts[0].as_slice(), get.as_slice()) {
            return None;
        }
        let resource = string_of(parts[1].as_slice());
        let headers = Headers::parse(&all_lines, 1);
        match Self::validate_headers(&headers) {
            Ok(_) => Some(RequestLine { resource, headers }),
            Err(_) => None,
        }
    }

    /// Checks the fields of an upgrade request and says what is wrong with
    /// the first that fails.
    pub fn validate_headers(headers: &Headers) -> (verdict: Result<(), &'static str>)
        ensures
            match verdict {
                Ok(_) => request_fields_verdict(headers@) is Ok,
                Err(reason) => request_fields_verdict(headers@) == Err::<(), Seq<char>>(reason@),
            },
    {
        match headers.get("sec-websocket-version") {
            Some(version) => {
                let digits = chars_of(version.as_str());
                match parse_number(digits.as_slice(), 255) {
                    Some(number) => {
                        if number != 13 {
                            return Err("Invalid WebSocket Version");
                        }
                    },
                    None => {
                        return Err("Invalid WebSocket Version");
                    },
                }
            },
            None => {
                return Err("Missing WebSocket Version");
            },
        }
        match headers.get("upgrade") {
            Some(upgrade_value) => {
                let value = lowercase(chars_of(upgrade_value.as_str()).as_slice());
                let expected = chars_of("websocket");
                if !equal(value.as_slice(), expected.as_slice()) {
                    return Err("Invalid Upgrade Value");
                }
            },
            None => {
                return Err("Missing Upgrade Header");
            },
        }
        match headers.get("connection") {
            Some(connection_value) => {
                let value = lowercase(chars_of(connection_value.as_str()).as_slice());
                let expected = chars_of("upgrade");
                if find_in(value.as_slice(), expected.as_slice(), 0).is_none() {
                    return Err("Invalid Connection Value");
                }
            },
            None => {
                return Err("Missing Connection Header");
            },
        }
        Ok(())
    }
}

} // verus!
