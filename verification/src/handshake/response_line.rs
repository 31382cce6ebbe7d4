//! The server's answer to an upgrade request.

use crate::headers::{field_lines, Headers};
use crate::primitives::{base64, base64_text, sha1, sha1_digest, SHA1_MAX_MESSAGE};
use crate::text::{decimal_text, joined_lines, push_decimal, push_line, push_text, string_of};
use vstd::prelude::*;
use vstd::string::StringExecFns;
use vstd::utf8::encode_utf8;

verus! {

/// The status line and the header fields of an answer. An answer that
/// accepts the upgrade has three fields; one that refuses it has none.
#[derive(Debug)]
pub struct ResponseLine {
    pub status_code: u16,
    pub reason_phrase: String,
    pub headers: Option<Headers>,
}

/// The mathematical value of an answer, with the fields in their order.
#[verifier::ext_equal]
pub struct ResponseView {
    pub status_code: u16,
    pub reason_phrase: Seq<char>,
    pub headers: Option<Seq<(Seq<char>, Seq<char>)>>,
}

impl View for ResponseLine {
    type V = ResponseView;

    open spec fn view(&self) -> ResponseView {
        ResponseView {
            status_code: self.status_code,
            reason_phrase: self.reason_phrase@,
            headers: match self.headers {
                Some(fields) => Some(fields.entries()),
                None => None,
            },
        }
    }
}

/// The identifier that RFC 6455 appends to the client's key.
pub open spec fn websocket_guid() -> Seq<char> {
    "258EAFA5-E914-47DA-95CA-C5AB0DC85B11"@
}

/// The bytes that are hashed for a key: the key followed by the identifier,
/// in UTF-8.
pub open spec fn accept_input(key: Seq<char>) -> Seq<u8> {
    encode_utf8(key + websocket_guid())
}

/// Whether a key is short enough to be hashed.
pub open spec fn key_fits(key: Seq<char>) -> bool {
    accept_input(key).len() <= SHA1_MAX_MESSAGE
}

/// The accept key for a client's key: the base64 text of the SHA-1 digest
/// of the key followed by the identifier.
pub open spec fn accept_key_of(key: Seq<char>) -> Seq<char> {
    base64_text(sha1_digest(accept_input(key)))
}

/// The answer that accepts an upgrade asked for with the given key.
pub open spec fn switching_response(key: Seq<char>) -> ResponseView {
    ResponseView {
        status_code: 101,
        reason_phrase: "Switching Protocols"@,
        headers: Some(
            seq![
                ("Upgrade"@, "websocket"@),
                ("Connection"@, "Upgrade"@),
                ("Sec-WebSocket-Accept"@, accept_key_of(key)),
            ],
        ),
    }
}

/// The answer that refuses, with a status code and a reason.
pub open spec fn refusing_response(status_code: u16, reason_phrase: Seq<char>) -> ResponseView {
    ResponseView { status_code, reason_phrase, headers: None }
}

/// The status line of an answer: the protocol, the status code and the
/// reason.
pub open spec fn status_line_text(status_code: u16, reason_phrase: Seq<char>) -> Seq<char> {
    "HTTP/1.1 "@ + decimal_text(status_code as nat) + seq![' '] + reason_phrase
}

/// The lines of an answer: the status line, the header fields, and an
/// empty line.
pub open spec fn response_lines(response: ResponseView) -> Seq<Seq<char>> {
    seq![status_line_text(response.status_code, response.reason_phrase)] + match response.headers {
        Some(fields) => field_lines(fields),
        None => Seq::empty(),
    } + seq![Seq::empty()]
}

/// The answer as it is sent: its lines, each with its line end.
pub open spec fn response_text(response: ResponseView) -> Seq<char> {
    joined_lines(response_lines(response))
}

impl ResponseLine {
    /// An answer that refuses the upgrade.
    pub fn err_build(status_code: u16, reason_phrase: &str) -> (response: ResponseLine)
        ensures
            response@ == refusing_response(status_code, reason_phrase@),
    {
        ResponseLine { status_code, reason_phrase: reason_phrase.to_owned(), headers: None }
    }

    /// The answer that accepts the upgrade asked for with `request_key`.
    pub fn build(request_key: &str) -> (response: ResponseLine)
        requires
            key_fits(request_key@),
        ensures
            response@ == switching_response(request_key@),
    {
        let accept_key = Self::generate_websocket_accept_key(request_key);
        Self::switching(accept_key)
    }

    /// The answer that accepts an upgrade, around an accept key.
    pub(crate) fn switching(accept_key: String) -> (response: ResponseLine)
        ensures
            response@ == (ResponseView {
                status_code: 101,
                reason_phrase: "Switching Protocols"@,
                headers: Some(
                    seq![
                        ("Upgrade"@, "websocket"@),
                        ("Connection"@, "Upgrade"@),
                        ("Sec-WebSocket-Accept"@, accept_key@),
                    ],
                ),
            }),
    {
        let ghost accept_text = accept_key@;
        let mut fields = Headers::new();
        proof {
            reveal_strlit("Upgrade");
            reveal_strlit("Connection");
            reveal_strlit("Sec-WebSocket-Accept");
        }
        fields.insert("Upgrade".to_owned(), "websocket".to_owned());
        assert("Upgrade"@.len() == 7);
        assert("Connection"@.len() == 10);
        assert(!fields@.contains_key("Connection"@));
        fields.insert("Connection".to_owned(), "Upgrade".to_owned());
        assert("Sec-WebSocket-Accept"@.len() == 20);
        assert(!fields@.contains_key("Sec-WebSocket-Accept"@));
        fields.insert("Sec-WebSocket-Accept".to_owned(), accept_key);
        let response = ResponseLine {
            status_code: 101,
            reason_phrase: "Switching Protocols".to_owned(),
            headers: Some(fields),
        };
        assert(response@.headers->0 =~= seq![
            ("Upgrade"@, "websocket"@),
            ("Connection"@, "Upgrade"@),
            ("Sec-WebSocket-Accept"@, accept_text),
        ]);
        response
    }

    /// The accept key for a client's key.
    pub fn generate_websocket_accept_key(key: &str) -> (accept_key: String)
        requires
            key_fits(key@),
        ensures
            accept_key@ == accept_key_of(key@),
    {
        let mut combined_key = key.to_owned();
        combined_key.append("258EAFA5-E914-47DA-95CA-C5AB0DC85B11");
        let digest = sha1(combined_key.as_str().as_bytes());
        base64(digest.as_slice())
    }

    /// The accept key for a client's key, or nothing for a key that is too
    /// long to be hashed.
    pub fn accept_key(key: &str) -> (accept_key: Option<String>)
        ensures
            match accept_key {
                Some(text) => key_fits(key@) && text@ == accept_key_of(key@),
                None => !key_fits(key@),
            },
    {
        let mut combined_key = key.to_owned();
        combined_key.append("258EAFA5-E914-47DA-95CA-C5AB0DC85B11");
        let message = combined_key.as_str().as_bytes();
        if message.len() as u64 > SHA1_MAX_MESSAGE {
            return None;
        }
        let digest = sha1(message);
        Some(base64(digest.as_slice()))
    }

    /// The answer as it is sent.
    pub fn to_string(&self) -> (text: String)
        ensures
            text@ == response_text(self@),
    {
        let mut status_line: Vec<char> = Vec::new();
        push_text(&mut status_line, "HTTP/1.1 ");
        push_decimal(&mut status_line, self.status_code as u64);
        status_line.push(' ');
        push_text(&mut status_line, self.reason_phrase.as_str());
        assert(status_line@ =~= status_line_text(self.status_code, self.reason_phrase@));
        let mut out: Vec<char> = Vec::new();
        let ghost mut written: Seq<Seq<char>> = Seq::empty();
        proof {
            written = written.push(status_line@);
            assert(written.drop_last() =~= Seq::<Seq<char>>::empty());
            assert(joined_lines(written.drop_last()) =~= Seq::<char>::empty());
        }
        push_line(&mut out, status_line.as_slice());
        assert(out@ =~= joined_lines(written));
        if let Some(fields) = &self.headers {
            let count = fields.len();
            let mut at: usize = 0;
            assert(written =~= seq![status_line@] + field_lines(fields.entries()).take(0));
            while at < count
                invariant
                    at <= count,
                    count == fields.entries().len(),
                    out@ == joined_lines(written),
                    written == seq![status_line@] + field_lines(fields.entries()).take(at as int),
                decreases count - at,
            {
                let line = fields.line_at(at);
                proof {
                    let longer = written.push(line@);
                    assert(longer.drop_last() =~= written);
                    assert(longer =~= seq![status_line@] + field_lines(fields.entries()).take(
                        at + 1,
                    ));
                    written = longer;
                }
                push_line(&mut out, line.as_slice());
                at += 1;
            }
            assert(field_lines(fields.entries()).take(at as int) =~= field_lines(fields.entries()));
        } else {
            assert(written =~= seq![status_line@] + Seq::<Seq<char>>::empty());
        }
        let nothing: Vec<char> = Vec::new();
        proof {
            let longer = written.push(nothing@);
            assert(longer.drop_last() =~= written);
            assert(longer =~= response_lines(self@));
        }
        push_line(&mut out, nothing.as_slice());
        string_of(out.as_slice())
    }
}

} // verus!
