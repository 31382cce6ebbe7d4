//! The two sides of the opening handshake agree: what the client sends the
//! server accepts, and what the server answers the client accepts.

use crate::client::{
    at_least_1_1, request_line_text, response_fields_ok, response_verdict, status_line_verdict,
    upgrade_request_lines, upgrade_request_text, version_parts,
};
use crate::errors::ScError;
use crate::handshake::accepted_key;
use crate::handshake::request_line::{
    names_version_13, parsed_request, request_fields_verdict, request_target, RequestView,
};
use crate::handshake::response_line::{
    accept_key_of, key_fits, response_lines, response_text, status_line_text, switching_response,
};
use crate::headers::{
    field_line, header_fields, headers_from, lemma_header_line_read, lemma_inserted_new,
    lemma_lookup_at, lookup, map_of,
};
use crate::text::{
    ascii_lowercase, decimal_text, decimal_value, find, is_whitespace, lemma_find_absent_char,
    lemma_lines_of_joined, lemma_split_once_char, lemma_three_words, lines, parse_unsigned, words,
};
use vstd::prelude::*;

verus! {

/// The header fields of the client's upgrade request as the server reads
/// them.
pub open spec fn upgrade_request_fields(host: Seq<char>, key: Seq<char>) -> Seq<
    (Seq<char>, Seq<char>),
> {
    seq![
        ("host"@, host),
        ("upgrade"@, "websocket"@),
        ("connection"@, "Upgrade"@),
        ("sec-websocket-key"@, key),
        ("sec-websocket-version"@, "13"@),
    ]
}

/// Two texts without a character, put together, are without it.
proof fn lemma_joined_lacks(a: Seq<char>, b: Seq<char>, c: char)
    requires
        !a.contains(c),
        !b.contains(c),
    ensures
        !(a + b).contains(c),
{
    if (a + b).contains(c) {
        let at = choose|i: int| 0 <= i < (a + b).len() && (a + b)[i] == c;
        if at < a.len() {
            assert(a[at] == c);
        } else {
            assert(b[at - a.len()] == c);
        }
    }
}

/// A header line is without line feed where its name and its value are.
proof fn lemma_field_line_lacks_feed(name: Seq<char>, value: Seq<char>)
    requires
        !name.contains('\n'),
        !value.contains('\n'),
    ensures
        find(field_line((name, value)), seq!['\n']) is None,
{
    let separator = seq![':', ' '];
    assert(!separator.contains('\n'));
    lemma_joined_lacks(name, separator, '\n');
    lemma_joined_lacks(name + separator, value, '\n');
    lemma_find_absent_char(field_line((name, value)), '\n');
}

/// The names and the fixed values of the handshake's header fields hold
/// neither a line feed nor, the names, a colon.
proof fn lemma_fixed_texts()
    ensures
        !"Host"@.contains('\n') && !"Host"@.contains(':'),
        !"Upgrade"@.contains('\n') && !"Upgrade"@.contains(':'),
        !"Connection"@.contains('\n') && !"Connection"@.contains(':'),
        !"Sec-WebSocket-Key"@.contains('\n') && !"Sec-WebSocket-Key"@.contains(':'),
        !"Sec-WebSocket-Version"@.contains('\n') && !"Sec-WebSocket-Version"@.contains(':'),
        !"Sec-WebSocket-Accept"@.contains('\n') && !"Sec-WebSocket-Accept"@.contains(':'),
        !"websocket"@.contains('\n'),
        !"13"@.contains('\n'),
        ascii_lowercase("Host"@) == "host"@,
        ascii_lowercase("Upgrade"@) == "upgrade"@,
        ascii_lowercase("Connection"@) == "connection"@,
        ascii_lowercase("Sec-WebSocket-Key"@) == "sec-websocket-key"@,
        ascii_lowercase("Sec-WebSocket-Version"@) == "sec-websocket-version"@,
        ascii_lowercase("Sec-WebSocket-Accept"@) == "sec-websocket-accept"@,
        ascii_lowercase("websocket"@) == "websocket"@,
        "host"@.len() == 4,
        "upgrade"@.len() == 7,
        "connection"@.len() == 10,
        "sec-websocket-key"@.len() == 17,
        "sec-websocket-version"@.len() == 21,
        "sec-websocket-accept"@.len() == 20,
{
    reveal_strlit("Host");
    reveal_strlit("Upgrade");
    reveal_strlit("Connection");
    reveal_strlit("Sec-WebSocket-Key");
    reveal_strlit("Sec-WebSocket-Version");
    reveal_strlit("Sec-WebSocket-Accept");
    reveal_strlit("websocket");
    reveal_strlit("13");
    reveal_strlit("host");
    reveal_strlit("upgrade");
    reveal_strlit("connection");
    reveal_strlit("sec-websocket-key");
    reveal_strlit("sec-websocket-version");
    reveal_strlit("sec-websocket-accept");
    assert(ascii_lowercase("Host"@) =~= "host"@);
    assert(ascii_lowercase("Upgrade"@) =~= "upgrade"@);
    assert(ascii_lowercase("Connection"@) =~= "connection"@);
    assert(ascii_lowercase("Sec-WebSocket-Key"@) =~= "sec-websocket-key"@);
    assert(ascii_lowercase("Sec-WebSocket-Version"@) =~= "sec-websocket-version"@);
    assert(ascii_lowercase("Sec-WebSocket-Accept"@) =~= "sec-websocket-accept"@);
    assert(ascii_lowercase("websocket"@) =~= "websocket"@);
}

/// The request line of an upgrade request is made of three words.
proof fn lemma_request_line_words(resource: Seq<char>)
    requires
        resource.len() > 0,
        forall|j: int| 0 <= j < resource.len() ==> !is_whitespace(#[trigger] resource[j]),
    ensures
        words(request_line_text(resource)) == seq!["GET"@, resource, "HTTP/1.1"@],
        !request_line_text(resource).contains('\n'),
{
    reveal_strlit("GET ");
    reveal_strlit(" HTTP/1.1");
    reveal_strlit("GET");
    reveal_strlit("HTTP/1.1");
    let line = request_line_text(resource);
    assert(line =~= "GET"@ + seq![' '] + resource + seq![' '] + "HTTP/1.1"@);
    lemma_three_words("GET"@, resource, "HTTP/1.1"@);
    assert(is_whitespace('\n'));
    assert(!resource.contains('\n'));
    assert(!"GET "@.contains('\n'));
    assert(!" HTTP/1.1"@.contains('\n'));
    lemma_joined_lacks("GET "@, resource, '\n');
    lemma_joined_lacks("GET "@ + resource, " HTTP/1.1"@, '\n');
}

/// Reading the lines of the upgrade request gives the lines from which it
/// was written.
proof fn lemma_request_lines_read_back(resource: Seq<char>, host: Seq<char>, key: Seq<char>)
    requires
        !request_line_text(resource).contains('\n'),
        !host.contains('\n'),
        !key.contains('\n'),
    ensures
        lines(upgrade_request_text(resource, host, key)) == upgrade_request_lines(
            resource,
            host,
            key,
        ),
{
    let parts = upgrade_request_lines(resource, host, key);
    let feed = seq!['\n'];
    lemma_fixed_texts();
    lemma_find_absent_char(request_line_text(resource), '\n');
    lemma_field_line_lacks_feed("Host"@, host);
    lemma_field_line_lacks_feed("Upgrade"@, "websocket"@);
    lemma_field_line_lacks_feed("Connection"@, "Upgrade"@);
    lemma_field_line_lacks_feed("Sec-WebSocket-Key"@, key);
    lemma_field_line_lacks_feed("Sec-WebSocket-Version"@, "13"@);
    lemma_find_absent_char(Seq::<char>::empty(), '\n');
    assert forall|i: int| 0 <= i < parts.len() implies find(#[trigger] parts[i], feed) is None by {
        if i == 0 {
        } else if i == 1 {
        } else if i == 2 {
        } else if i == 3 {
        } else if i == 4 {
        } else if i == 5 {
        } else {
        }
    }
    lemma_lines_of_joined(parts);
}

/// The server reads from the upgrade request the five fields that the
/// client wrote, their names in lower case.
proof fn lemma_request_fields_read(resource: Seq<char>, host: Seq<char>, key: Seq<char>)
    ensures
        headers_from(upgrade_request_lines(resource, host, key), 1, Seq::empty())
            == upgrade_request_fields(host, key),
{
    let parts = upgrade_request_lines(resource, host, key);
    lemma_fixed_texts();
    let e0 = Seq::<(Seq<char>, Seq<char>)>::empty();
    lemma_header_line_read(parts, 1, e0, "Host"@, host);
    lemma_inserted_new(e0, "host"@, host);
    let e1 = e0.push(("host"@, host));
    lemma_header_line_read(parts, 2, e1, "Upgrade"@, "websocket"@);
    lemma_inserted_new(e1, "upgrade"@, "websocket"@);
    let e2 = e1.push(("upgrade"@, "websocket"@));
    lemma_header_line_read(parts, 3, e2, "Connection"@, "Upgrade"@);
    lemma_inserted_new(e2, "connection"@, "Upgrade"@);
    let e3 = e2.push(("connection"@, "Upgrade"@));
    lemma_header_line_read(parts, 4, e3, "Sec-WebSocket-Key"@, key);
    lemma_inserted_new(e3, "sec-websocket-key"@, key);
    let e4 = e3.push(("sec-websocket-key"@, key));
    lemma_header_line_read(parts, 5, e4, "Sec-WebSocket-Version"@, "13"@);
    lemma_inserted_new(e4, "sec-websocket-version"@, "13"@);
    let e5 = e4.push(("sec-websocket-version"@, "13"@));
    assert(parts[6].len() == 0);
    assert(headers_from(parts, 6, e5) == e5);
    assert(e5 =~= upgrade_request_fields(host, key));
}

/// The five fields of the upgrade request pass the server's checks, and
/// the key is found among them.
proof fn lemma_request_fields_pass(host: Seq<char>, key: Seq<char>)
    ensures
        request_fields_verdict(map_of(upgrade_request_fields(host, key))) is Ok,
        lookup(upgrade_request_fields(host, key), "sec-websocket-key"@) == Some(key),
{
    let fields = upgrade_request_fields(host, key);
    lemma_fixed_texts();
    lemma_lookup_at(fields, "upgrade"@, 1);
    lemma_lookup_at(fields, "connection"@, 2);
    lemma_lookup_at(fields, "sec-websocket-key"@, 3);
    lemma_lookup_at(fields, "sec-websocket-version"@, 4);
    assert(parse_unsigned("13"@, 255) == Some(13nat)) by {
        reveal_strlit("13");
        reveal_with_fuel(decimal_value, 3);
        assert("13"@.drop_last() =~= seq!['1']);
        assert(seq!['1'].drop_last() =~= Seq::<char>::empty());
    }
    assert(names_version_13(map_of(fields)));
    assert(find("upgrade"@, "upgrade"@) == Some(0int)) by {
        assert("upgrade"@.subrange(0, "upgrade"@.len() as int) =~= "upgrade"@);
    }
}

/// What the client sends the server accepts. The upgrade request for a
/// request target of one word, for a host and a key of one line each, and
/// for a key that can be hashed, parses to that target and to the five
/// fields that the client wrote, and the server accepts it with that key.
pub proof fn lemma_request_is_accepted(resource: Seq<char>, host: Seq<char>, key: Seq<char>)
    requires
        resource.len() > 0,
        forall|j: int| 0 <= j < resource.len() ==> !is_whitespace(#[trigger] resource[j]),
        !host.contains('\n'),
        !key.contains('\n'),
        key_fits(key),
    ensures
        parsed_request(upgrade_request_text(resource, host, key)) == Some(
            RequestView { resource, headers: upgrade_request_fields(host, key) },
        ),
        accepted_key(upgrade_request_text(resource, host, key)) == Some(key),
{
    let text = upgrade_request_text(resource, host, key);
    lemma_request_line_words(resource);
    lemma_request_lines_read_back(resource, host, key);
    lemma_request_fields_read(resource, host, key);
    lemma_request_fields_pass(host, key);
    assert(request_target(text) == Some(resource));
    assert(header_fields(text) == upgrade_request_fields(host, key));
}

/// The header fields of the server's accepting answer as the client reads
/// them.
pub open spec fn answer_fields(key: Seq<char>) -> Seq<(Seq<char>, Seq<char>)> {
    seq![
        ("upgrade"@, "websocket"@),
        ("connection"@, "Upgrade"@),
        ("sec-websocket-accept"@, accept_key_of(key)),
    ]
}

/// The status line of an accepting answer passes the client's checks.
proof fn lemma_status_line_passes()
    ensures
        status_line_verdict(status_line_text(101, "Switching Protocols"@)) == Ok::<(), ScError>(()),
        !status_line_text(101, "Switching Protocols"@).contains('\n'),
{
    reveal_strlit("HTTP/1.1 ");
    reveal_strlit("HTTP/1.1");
    reveal_strlit("HTTP");
    reveal_strlit("http");
    reveal_strlit("Switching Protocols");
    reveal_strlit("switching protocols");
    let line = status_line_text(101, "Switching Protocols"@);
    let code = seq!['1', '0', '1'];
    let version = seq!['1', '.', '1'];
    let one = seq!['1'];
    let reason = "Switching Protocols"@;
    let rest = code + seq![' '] + reason;
    assert(decimal_text(101) =~= code) by {
        reveal_with_fuel(decimal_text, 4);
    }
    assert(line =~= "HTTP/1.1"@ + seq![' '] + rest);
    assert(!line.contains('\n'));
    assert(!"HTTP/1.1"@.contains(' '));
    lemma_find_absent_char("HTTP/1.1"@, ' ');
    lemma_split_once_char("HTTP/1.1"@, ' ', rest);
    assert(!code.contains(' '));
    lemma_find_absent_char(code, ' ');
    lemma_split_once_char(code, ' ', reason);
    assert("HTTP/1.1"@ =~= "HTTP"@ + seq!['/'] + version);
    assert(!"HTTP"@.contains('/'));
    lemma_find_absent_char("HTTP"@, '/');
    lemma_split_once_char("HTTP"@, '/', version);
    assert(ascii_lowercase("HTTP"@) =~= "http"@);
    assert(version =~= one + seq!['.'] + one);
    assert(!one.contains('.'));
    lemma_find_absent_char(one, '.');
    lemma_split_once_char(one, '.', one);
    assert(decimal_value(one) == 1) by {
        reveal_with_fuel(decimal_value, 2);
        assert(one.drop_last() =~= Seq::<char>::empty());
    }
    assert(version_parts(version) == Some((one, one)));
    assert(at_least_1_1(one, one));
    assert(parse_unsigned(code, 65535) == Some(101nat)) by {
        reveal_with_fuel(decimal_value, 4);
        assert(code.drop_last() =~= seq!['1', '0']);
        assert(seq!['1', '0'].drop_last() =~= seq!['1']);
        assert(seq!['1'].drop_last() =~= Seq::<char>::empty());
    }
    assert(ascii_lowercase(reason) =~= "switching protocols"@);
}

/// Reading the lines of the accepting answer gives the lines from which
/// it was written, and the client reads from them the three fields that
/// the server wrote, their names in lower case.
proof fn lemma_answer_read_back(key: Seq<char>)
    requires
        !accept_key_of(key).contains('\n'),
    ensures
        lines(response_text(switching_response(key))) == response_lines(switching_response(key)),
        response_lines(switching_response(key)).len() == 5,
        response_lines(switching_response(key))[0] == status_line_text(
            101,
            "Switching Protocols"@,
        ),
        header_fields(response_text(switching_response(key))) == answer_fields(key),
{
    let answer = switching_response(key);
    let accept = accept_key_of(key);
    let parts = response_lines(answer);
    let feed = seq!['\n'];
    lemma_fixed_texts();
    lemma_status_line_passes();
    reveal_strlit("Upgrade");
    assert(!"Upgrade"@.contains('\n'));
    assert(parts =~= seq![
        status_line_text(101, "Switching Protocols"@),
        field_line(("Upgrade"@, "websocket"@)),
        field_line(("Connection"@, "Upgrade"@)),
        field_line(("Sec-WebSocket-Accept"@, accept)),
        Seq::<char>::empty(),
    ]);
    lemma_find_absent_char(parts[0], '\n');
    lemma_field_line_lacks_feed("Upgrade"@, "websocket"@);
    lemma_field_line_lacks_feed("Connection"@, "Upgrade"@);
    lemma_field_line_lacks_feed("Sec-WebSocket-Accept"@, accept);
    lemma_find_absent_char(Seq::<char>::empty(), '\n');
    assert forall|i: int| 0 <= i < parts.len() implies find(#[trigger] parts[i], feed) is None by {
        if i == 0 {
        } else if i == 1 {
        } else if i == 2 {
        } else if i == 3 {
        } else {
        }
    }
    lemma_lines_of_joined(parts);
    let e0 = Seq::<(Seq<char>, Seq<char>)>::empty();
    lemma_header_line_read(parts, 1, e0, "Upgrade"@, "websocket"@);
    lemma_inserted_new(e0, "upgrade"@, "websocket"@);
    let e1 = e0.push(("upgrade"@, "websocket"@));
    lemma_header_line_read(parts, 2, e1, "Connection"@, "Upgrade"@);
    lemma_inserted_new(e1, "connection"@, "Upgrade"@);
    let e2 = e1.push(("connection"@, "Upgrade"@));
    lemma_header_line_read(parts, 3, e2, "Sec-WebSocket-Accept"@, accept);
    lemma_inserted_new(e2, "sec-websocket-accept"@, accept);
    let e3 = e2.push(("sec-websocket-accept"@, accept));
    assert(parts[4].len() == 0);
    assert(headers_from(parts, 4, e3) == e3);
    assert(e3 =~= answer_fields(key));
}

/// What the server answers the client accepts. The answer that accepts
/// an upgrade asked for with a key passes every check of the client that
/// sent that key, where the key can be hashed and its accept key is one
/// line.
pub proof fn lemma_answer_is_accepted(key: Seq<char>)
    requires
        key_fits(key),
        !accept_key_of(key).contains('\n'),
    ensures
        response_verdict(response_text(switching_response(key)), key) == Ok::<(), ScError>(()),
{
    let received = response_text(switching_response(key));
    let fields = answer_fields(key);
    lemma_answer_read_back(key);
    lemma_status_line_passes();
    lemma_fixed_texts();
    lemma_lookup_at(fields, "upgrade"@, 0);
    lemma_lookup_at(fields, "connection"@, 1);
    lemma_lookup_at(fields, "sec-websocket-accept"@, 2);
    assert(response_fields_ok(map_of(fields), key));
    assert(received.len() > 0) by {
        if received.len() == 0 {
            assert(lines(received) =~= Seq::<Seq<char>>::empty());
        }
    }
}

/// The opening handshake completes: the server accepts the client's
/// upgrade request with the client's key, and the client accepts the answer
/// that the server gives for that key.
pub proof fn lemma_handshake_completes(resource: Seq<char>, host: Seq<char>, key: Seq<char>)
    requires
        resource.len() > 0,
        forall|j: int| 0 <= j < resource.len() ==> !is_whitespace(#[trigger] resource[j]),
        !host.contains('\n'),
        !key.contains('\n'),
        key_fits(key),
        !accept_key_of(key).contains('\n'),
    ensures
        accepted_key(upgrade_request_text(resource, host, key)) == Some(key),
        response_verdict(response_text(switching_response(key)), key) == Ok::<(), ScError>(()),
{
    lemma_request_is_accepted(resource, host, key);
    lemma_answer_is_accepted(key);
}

} // verus!
