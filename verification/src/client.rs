//! The opening handshake on the client's side, and the framing of what the
//! client sends.

use crate::dataframe::{decoded_frame, encoded_frame, lemma_encode_decode_roundtrip, DataFrame};
use crate::errors::ScError;
use crate::handshake::response_line::{accept_key_of, key_fits, ResponseLine};
use crate::headers::{field_line, header_fields, map_of, Headers};
use crate::opcode::OpCode;
use crate::primitives::{base64, base64_text, random_bytes};
use crate::text::{
    all_digits, ascii_lowercase, chars_of, decimal_value, equal, is_digit, joined_lines, line_end,
    lines, lowercase, parse_number, parse_unsigned, push_line, push_text, split_around,
    split_lines, split_once, string_of,
};
use crate::url::{host_name_of, resource_name_of, WebSocketUrl};
use vstd::prelude::*;
use vstd::slice::slice_subrange;
use vstd::string::StringSliceAdditionalSpecFns;

verus! {

/// The whole and the fractional digits of a protocol version: digits, a
/// point and digits, where either side of the point may be empty but not
/// both, or digits alone.
pub open spec fn version_parts(version: Seq<char>) -> Option<(Seq<char>, Seq<char>)> {
    let (whole, fraction) = match split_once(version, seq!['.']) {
        Some((whole, fraction)) => (whole, fraction),
        None => (version, Seq::empty()),
    };
    if whole.len() + fraction.len() > 0 && all_digits(whole) && all_digits(fraction) {
        Some((whole, fraction))
    } else {
        None
    }
}

/// Whether the version `whole.fraction` is 1.1 or later.
pub open spec fn at_least_1_1(whole: Seq<char>, fraction: Seq<char>) -> bool {
    decimal_value(whole) > 1 || (decimal_value(whole) == 1 && fraction.len() > 0 && fraction[0]
        != '0')
}

/// What the client finds in the status line of the server's answer. The
/// line is cut at its first two spaces into the protocol with its version,
/// the status code, and the reason. The protocol must be `http` in any
/// case, the version a decimal number of at least 1.1, the code the number
/// 101, and the reason `switching protocols` in any case.
pub open spec fn status_line_verdict(line: Seq<char>) -> Result<(), ScError> {
    match split_once(line, seq![' ']) {
        None => Err(ScError::InvalidHttpResponse),
        Some((protocol_version, rest)) => match split_once(rest, seq![' ']) {
            None => Err(ScError::InvalidHttpResponse),
            Some((code, reason)) => match split_once(protocol_version, seq!['/']) {
                None => Err(ScError::InvalidHttpResponse),
                Some((protocol, version)) => if ascii_lowercase(protocol) != "http"@ {
                    Err(ScError::InvalidHttpResponse)
                } else {
                    match version_parts(version) {
                        None => Err(ScError::InvalidHttpResponse),
                        Some((whole, fraction)) => if !at_least_1_1(whole, fraction) {
                            Err(ScError::LowerHttpVersion)
                        } else {
                            match parse_unsigned(code, 65535) {
                                None => Err(ScError::InvalidHttpResponse),
                                Some(status) => if status != 101 {
                                    Err(ScError::InvalidStatusCode)
                                } else if ascii_lowercase(reason) != "switching protocols"@ {
                                    Err(ScError::InvalidHttpResponse)
                                } else {
                                    Ok(())
                                },
                            }
                        },
                    }
                },
            },
        },
    }
}

/// Whether the fields of the server's answer accept the upgrade that was
/// asked for with `client_key`: `upgrade` is `websocket` and `connection`
/// is `upgrade`, both in any case, and `sec-websocket-accept` is the accept
/// key for the client's key.
pub open spec fn response_fields_ok(fields: Map<Seq<char>, Seq<char>>, client_key: Seq<char>) -> bool {
    &&& fields.contains_key("upgrade"@)
    &&& ascii_lowercase(fields["upgrade"@]) == "websocket"@
    &&& fields.contains_key("connection"@)
    &&& ascii_lowercase(fields["connection"@]) == "upgrade"@
    &&& fields.contains_key("sec-websocket-accept"@)
    &&& key_fits(client_key)
    &&& fields["sec-websocket-accept"@] == accept_key_of(client_key)
}

/// What the client makes of what it received in answer to its request.
/// Nothing received means that the server closed the connection. Else the
/// first line is the status line, and the lines after it, up to the first
/// empty line, are the header fields.
pub open spec fn response_verdict(received: Seq<char>, client_key: Seq<char>) -> Result<
    (),
    ScError,
> {
    if received.len() == 0 {
        Err(ScError::ServerClosed)
    } else if lines(received).len() > 0 && status_line_verdict(lines(received)[0]) is Err {
        status_line_verdict(lines(received)[0])
    } else if !response_fields_ok(map_of(header_fields(received)), client_key) {
        Err(ScError::InvalidHandshakeHeader)
    } else {
        Ok(())
    }
}

/// The first line of an upgrade request for a request target.
pub open spec fn request_line_text(resource: Seq<char>) -> Seq<char> {
    "GET "@ + resource + " HTTP/1.1"@
}

/// The lines of the upgrade request for a request target, a host and a
/// key: the request line, five header fields, and an empty line.
pub open spec fn upgrade_request_lines(resource: Seq<char>, host: Seq<char>, key: Seq<char>) -> Seq<
    Seq<char>,
> {
    seq![
        request_line_text(resource),
        field_line(("Host"@, host)),
        field_line(("Upgrade"@, "websocket"@)),
        field_line(("Connection"@, "Upgrade"@)),
        field_line(("Sec-WebSocket-Key"@, key)),
        field_line(("Sec-WebSocket-Version"@, "13"@)),
        Seq::empty(),
    ]
}

/// The upgrade request as it is sent: its lines, each with its line end.
pub open spec fn upgrade_request_text(resource: Seq<char>, host: Seq<char>, key: Seq<char>) -> Seq<
    char,
> {
    joined_lines(upgrade_request_lines(resource, host, key))
}

/// The value of a string of digits, counted up to two.
fn value_up_to_two(digits: &[char]) -> (value: Option<u8>)
    ensures
        match value {
            Some(v) => all_digits(digits@) && v == if decimal_value(digits@) < 2 {
                decimal_value(digits@)
            } else {
                2
            },
            None => !all_digits(digits@),
        },
{
    let mut value: u8 = 0;
    let mut i: usize = 0;
    assert(digits@.take(0) =~= Seq::<char>::empty());
    while i < digits.len()
        invariant
            i <= digits@.len(),
            all_digits(digits@.take(i as int)),
            value <= 2,
            value == if decimal_value(digits@.take(i as int)) < 2 {
                decimal_value(digits@.take(i as int))
            } else {
                2
            },
        decreases digits@.len() - i,
    {
        let c = digits[i];
        let ghost longer = digits@.take(i + 1);
        assert(longer.drop_last() =~= digits@.take(i as int));
        assert(longer.last() == c);
        if !(c >= '0' && c <= '9') {
            assert(!is_digit(digits@[i as int]));
            return None;
        }
        let next: u8 = value * 10 + (c as u8 - 48);
        value = if next < 2 {
            next
        } else {
            2
        };
        i += 1;
    }
    assert(digits@.take(i as int) =~= digits@);
    Some(value)
}

/// Checks the status line of the server's answer.
pub fn verify_status_line(status_line: &str) -> (verdict: Result<(), ScError>)
    ensures
        verdict == status_line_verdict(status_line@),
{
    let line = chars_of(status_line);
    check_status_line(line.as_slice())
}

/// Checks the characters of a status line.
fn check_status_line(line: &[char]) -> (verdict: Result<(), ScError>)
    ensures
        verdict == status_line_verdict(line@),
{
    let space = [' '];
    let slash = ['/'];
    let point = ['.'];
    assert(space@ =~= seq![' ']);
    assert(slash@ =~= seq!['/']);
    assert(point@ =~= seq!['.']);
    let (protocol_version, rest) = match split_around(line, space.as_slice()) {
        Some(parts) => parts,
        None => {
            return Err(ScError::InvalidHttpResponse);
        },
    };
    let (code, reason) = match split_around(rest, space.as_slice()) {
        Some(parts) => parts,
        None => {
            return Err(ScError::InvalidHttpResponse);
        },
    };
    let (protocol, version) = match split_around(protocol_version, slash.as_slice()) {
        Some(parts) => parts,
        None => {
            return Err(ScError::InvalidHttpResponse);
        },
    };
    let http = chars_of("http");
    if !equal(lowercase(protocol).as_slice(), http.as_slice()) {
        return Err(ScError::InvalidHttpResponse);
    }
    let (whole, fraction) = match split_around(version, point.as_slice()) {
        Some(parts) => parts,
        None => {
            let nothing = slice_subrange(version, 0, 0);
            assert(nothing@ =~= Seq::<char>::empty());
            (version, nothing)
        },
    };
    if whole.len() == 0 && fraction.len() == 0 {
        return Err(ScError::InvalidHttpResponse);
    }
    let whole_value = match value_up_to_two(whole) {
        Some(value) => value,
        None => {
            return Err(ScError::InvalidHttpResponse);
        },
    };
    if value_up_to_two(fraction).is_none() {
        return Err(ScError::InvalidHttpResponse);
    }
    if !(whole_value > 1 || (whole_value == 1 && fraction.len() > 0 && fraction[0] != '0')) {
        return Err(ScError::LowerHttpVersion);
    }
    match parse_number(code, 65535) {
        Some(status_code) => {
            if status_code != 101 {
                return Err(ScError::InvalidStatusCode);
            }
        },
        None => {
            return Err(ScError::InvalidHttpResponse);
        },
    }
    let expected = chars_of("switching protocols");
    if !equal(lowercase(reason).as_slice(), expected.as_slice()) {
        return Err(ScError::InvalidHttpResponse);
    }
    Ok(())
}

/// Checks the header fields of the server's answer against the key that
/// the client sent.
pub fn validate_headers(resp_headers: &Headers, client_key: &str) -> (verdict: Result<(), ScError>)
    ensures
        verdict is Ok <==> response_fields_ok(resp_headers@, client_key@),
        verdict matches Err(error) ==> error == ScError::InvalidHandshakeHeader,
{
    match resp_headers.get("upgrade") {
        Some(upgrade_value) => {
            let value = lowercase(chars_of(upgrade_value.as_str()).as_slice());
            let expected = chars_of("websocket");
            if !equal(value.as_slice(), expected.as_slice()) {
                return Err(ScError::InvalidHandshakeHeader);
            }
        },
        None => {
            return Err(ScError::InvalidHandshakeHeader);
        },
    }
    match resp_headers.get("connection") {
        Some(conn_value) => {
            let value = lowercase(chars_of(conn_value.as_str()).as_slice());
            let expected = chars_of("upgrade");
            if !equal(value.as_slice(), expected.as_slice()) {
                return Err(ScError::InvalidHandshakeHeader);
            }
        },
        None => {
            return Err(ScError::InvalidHandshakeHeader);
        },
    }
    match resp_headers.get("sec-websocket-accept") {
        Some(accept_key) => {
            match ResponseLine::accept_key(client_key) {
                Some(generated_accept_key) => {
                    if generated_accept_key != *accept_key {
                        return Err(ScError::InvalidHandshakeHeader);
                    }
                },
                None => {
                    return Err(ScError::InvalidHandshakeHeader);
                },
            }
        },
        None => {
            return Err(ScError::InvalidHandshakeHeader);
        },
    }
    Ok(())
}

/// Checks what the client received in answer to its upgrade request.
pub fn verify_handshake_response(received: &str, client_key: &str) -> (verdict: Result<(), ScError>)
    ensures
        verdict == response_verdict(received@, client_key@),
{
    let chars = chars_of(received);
    if chars.len() == 0 {
        return Err(ScError::ServerClosed);
    }
    let all_lines = split_lines(chars.as_slice());
    if all_lines.len() > 0 {
        match check_status_line(all_lines[0].as_slice()) {
            Ok(_) => {},
            Err(error) => {
                return Err(error);
            },
        }
    }
    let resp_headers = Headers::parse(&all_lines, 1);
    match validate_headers(&resp_headers, client_key) {
        Ok(_) => Ok(()),
        Err(error) => Err(error),
    }
}

/// The key that goes with a nonce: its base64 text.
pub fn key_from_nonce(nonce: &[u8; 16]) -> (key: String)
    ensures
        key@ == base64_text(nonce@),
{
    base64(nonce.as_slice())
}

/// A fresh key for an upgrade request: the base64 text of sixteen random
/// bytes.
pub fn generate_key() -> (key: String)
    ensures
        exists|nonce: Seq<u8>| nonce.len() == 16 && key@ == base64_text(nonce),
{
    let nonce = random_bytes::<16>();
    key_from_nonce(&nonce)
}

/// Appends a header field as a line with its line end.
fn push_field(out: &mut Vec<char>, name: &str, value: &str)
    ensures
        final(out)@ == old(out)@ + field_line((name@, value@)) + line_end(),
{
    let mut line: Vec<char> = Vec::new();
    push_text(&mut line, name);
    line.push(':');
    line.push(' ');
    push_text(&mut line, value);
    assert(line@ =~= field_line((name@, value@)));
    push_line(out, line.as_slice());
}

/// The upgrade request that the client sends to an endpoint.
pub fn build_request(url: &WebSocketUrl, key: &str) -> (request: String)
    ensures
        request@ == upgrade_request_text(
            resource_name_of(url@.path, url@.query),
            host_name_of(url@.host),
            key@,
        ),
{
    let resource_name = url.resource_name();
    let host = url.host_name();
    let mut request_line: Vec<char> = Vec::new();
    push_text(&mut request_line, "GET ");
    push_text(&mut request_line, resource_name.as_str());
    push_text(&mut request_line, " HTTP/1.1");
    let mut request: Vec<char> = Vec::new();
    push_line(&mut request, request_line.as_slice());
    push_field(&mut request, "Host", host.as_str());
    push_field(&mut request, "Upgrade", "websocket");
    push_field(&mut request, "Connection", "Upgrade");
    push_field(&mut request, "Sec-WebSocket-Key", key);
    push_field(&mut request, "Sec-WebSocket-Version", "13");
    let nothing: Vec<char> = Vec::new();
    push_line(&mut request, nothing.as_slice());
    proof {
        let parts = upgrade_request_lines(resource_name@, host@, key@);
        reveal_with_fuel(joined_lines, 8);
        assert(parts.drop_last() =~= parts.take(6));
        assert(parts.take(6).drop_last() =~= parts.take(5));
        assert(parts.take(5).drop_last() =~= parts.take(4));
        assert(parts.take(4).drop_last() =~= parts.take(3));
        assert(parts.take(3).drop_last() =~= parts.take(2));
        assert(parts.take(2).drop_last() =~= parts.take(1));
        assert(parts.take(1).drop_last() =~= Seq::<Seq<char>>::empty());
        assert(request@ =~= joined_lines(parts));
    }
    string_of(request.as_slice())
}

/// Whether `wire` is the final text frame that carries `message` masked
/// with the four bytes of `key`.
pub open spec fn carries_text(wire: Seq<u8>, message: Seq<u8>, key: Seq<u8>) -> bool {
    key.len() == 4 && wire == encoded_frame(message, OpCode::Text, Some(key)).wire()
}

/// The bytes that carry a text message to the server: a final text frame,
/// masked with a fresh random key. There is no frame for an empty message.
/// Decoding the bytes gives the message back.
pub fn encode_message(message: &str) -> (bytes: Result<Vec<u8>, ScError>)
    ensures
        bytes is Err <==> message@.len() == 0,
        bytes matches Err(error) ==> error == ScError::DataFrameError,
        bytes matches Ok(wire) ==> exists|key: Seq<u8>| #[trigger]
            carries_text(wire@, message.spec_bytes(), key),
        bytes matches Ok(wire) ==> decoded_frame(wire@) matches Ok(frame) && frame.payload
            == message.spec_bytes(),
{
    if message.is_empty() {
        return Err(ScError::DataFrameError);
    }
    let payload = message.as_bytes();
    match DataFrame::from_data(payload, OpCode::Text, true) {
        Some(frame) => {
            let wire = frame.to_bytes();
            proof {
                let key = frame@.masking_key->0;
                assert(carries_text(wire@, payload@, key));
                assert(decoded_frame(wire@) matches Ok(decoded) && decoded.payload == payload@) by {
                    lemma_encode_decode_roundtrip(payload@, OpCode::Text, Some(key), Seq::empty());
                    assert(wire@ + Seq::<u8>::empty() =~= wire@);
                }
            }
            Ok(wire)
        },
        None => Err(ScError::DataFrameError),
    }
}

} // verus!
