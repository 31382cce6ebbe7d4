use rusty_socket::client::{
    build_request, encode_message, generate_key, key_from_nonce, validate_headers,
    verify_handshake_response, verify_status_line,
};
use rusty_socket::handshake::ConnectionStatus;
use rusty_socket::{DataFrame, HandShake, Headers, OpCode, ScError, WebSocketUrl};

const KEY: &str = "dGhlIHNhbXBsZSBub25jZQ==";
const ACCEPT: &str = "s3pPLMBiTxaQ9kYGzzhZRbK+xOo=";

fn answer_fields() -> Headers {
    let mut fields = Headers::new();
    fields.insert("upgrade".to_string(), "websocket".to_string());
    fields.insert("connection".to_string(), "Upgrade".to_string());
    fields.insert("sec-websocket-accept".to_string(), ACCEPT.to_string());
    fields
}

#[test]
fn status_line_of_a_switching_answer_is_accepted() {
    assert_eq!(verify_status_line("HTTP/1.1 101 Switching Protocols"), Ok(()));
    assert_eq!(verify_status_line("http/1.1 101 switching protocols"), Ok(()));
    assert_eq!(verify_status_line("HtTp/2 +101 SWITCHING PROTOCOLS"), Ok(()));
    assert_eq!(verify_status_line("HTTP/1.10 0101 Switching Protocols"), Ok(()));
    assert_eq!(verify_status_line("HTTP/2.0 101 Switching Protocols"), Ok(()));
    assert_eq!(verify_status_line("HTTP/10 101 Switching Protocols"), Ok(()));
    assert_eq!(verify_status_line("HTTP/1.5 101 Switching Protocols"), Ok(()));
    assert_eq!(verify_status_line("HTTP/0001.1 101 Switching Protocols"), Ok(()));
}

#[test]
fn status_line_with_a_lower_version_is_refused() {
    for version in ["1.0", "0.9", "1", "1.", "1.09", "0", ".5", "0.99", "1.0999"] {
        let line = format!("HTTP/{} 101 Switching Protocols", version);
        assert_eq!(verify_status_line(&line), Err(ScError::LowerHttpVersion));
    }
    assert_eq!(verify_status_line("HTTP/1.0 200 OK"), Err(ScError::LowerHttpVersion));
}

#[test]
fn status_line_with_another_code_is_refused() {
    assert_eq!(verify_status_line("HTTP/1.1 200 OK"), Err(ScError::InvalidStatusCode));
    assert_eq!(verify_status_line("HTTP/1.1 400 Bad Request"), Err(ScError::InvalidStatusCode));
    assert_eq!(
        verify_status_line("HTTP/1.1 1010 Switching Protocols"),
        Err(ScError::InvalidStatusCode)
    );
}

#[test]
fn malformed_status_line_is_refused() {
    for line in [
        "",
        "HTTP/1.1",
        "HTTP/1.1 101",
        "HTTP/1.1 101 Switching",
        "HTTP/1.1 101 Switching Protocols ",
        "HTTP/1.1  101 Switching Protocols",
        "HTTP1.1 101 Switching Protocols",
        "FTP/1.1 101 Switching Protocols",
        "HTTP/ 101 Switching Protocols",
        "HTTP/. 101 Switching Protocols",
        "HTTP/1.1.1 101 Switching Protocols",
        "HTTP/one 101 Switching Protocols",
        "HTTP/1,1 101 Switching Protocols",
        "HTTP/1.1 abc Switching Protocols",
        "HTTP/1.1 65536 Switching Protocols",
        "HTTP/1.1 -101 Switching Protocols",
    ] {
        assert_eq!(verify_status_line(line), Err(ScError::InvalidHttpResponse));
    }
}

#[test]
fn answer_fields_are_checked_against_the_key() {
    assert_eq!(validate_headers(&answer_fields(), KEY), Ok(()));

    let mut fields = answer_fields();
    fields.insert("upgrade".to_string(), "WEBSOCKET".to_string());
    fields.insert("connection".to_string(), "upgrade".to_string());
    assert_eq!(validate_headers(&fields, KEY), Ok(()));
}

#[test]
fn answer_fields_that_do_not_fit_are_refused() {
    assert_eq!(
        validate_headers(&answer_fields(), "another key"),
        Err(ScError::InvalidHandshakeHeader)
    );
    assert_eq!(validate_headers(&Headers::new(), KEY), Err(ScError::InvalidHandshakeHeader));

    let mut fields = answer_fields();
    fields.insert("upgrade".to_string(), "h2c".to_string());
    assert_eq!(validate_headers(&fields, KEY), Err(ScError::InvalidHandshakeHeader));

    let mut fields = answer_fields();
    fields.insert("connection".to_string(), "keep-alive, Upgrade".to_string());
    assert_eq!(validate_headers(&fields, KEY), Err(ScError::InvalidHandshakeHeader));

    let mut fields = answer_fields();
    fields.insert("sec-websocket-accept".to_string(), ACCEPT.to_lowercase());
    assert_eq!(validate_headers(&fields, KEY), Err(ScError::InvalidHandshakeHeader));

    let mut fields = Headers::new();
    fields.insert("upgrade".to_string(), "websocket".to_string());
    fields.insert("connection".to_string(), "Upgrade".to_string());
    assert_eq!(validate_headers(&fields, KEY), Err(ScError::InvalidHandshakeHeader));

    let mut fields = Headers::new();
    fields.insert("Upgrade".to_string(), "websocket".to_string());
    fields.insert("Connection".to_string(), "Upgrade".to_string());
    fields.insert("Sec-WebSocket-Accept".to_string(), ACCEPT.to_string());
    assert_eq!(validate_headers(&fields, KEY), Err(ScError::InvalidHandshakeHeader));
}

#[test]
fn whole_answer_is_verified() {
    let answer = "HTTP/1.1 101 Switching Protocols\r\n\
                  Upgrade: websocket\r\n\
                  Connection: Upgrade\r\n\
                  Sec-WebSocket-Accept: s3pPLMBiTxaQ9kYGzzhZRbK+xOo=\r\n\
                  \r\n";
    assert_eq!(verify_handshake_response(answer, KEY), Ok(()));
    assert_eq!(
        verify_handshake_response(answer, "x3JJHMbDL1EzLkh9GBhXDw=="),
        Err(ScError::InvalidHandshakeHeader)
    );
}

#[test]
fn nothing_received_means_the_server_closed() {
    assert_eq!(verify_handshake_response("", KEY), Err(ScError::ServerClosed));
}

#[test]
fn answer_with_a_bad_status_line_fails_on_that_line() {
    let fields = "Upgrade: websocket\r\nConnection: Upgrade\r\n\
                  Sec-WebSocket-Accept: s3pPLMBiTxaQ9kYGzzhZRbK+xOo=\r\n\r\n";
    assert_eq!(
        verify_handshake_response(&format!("HTTP/1.1 400 Bad Request\r\n{}", fields), KEY),
        Err(ScError::InvalidStatusCode)
    );
    assert_eq!(
        verify_handshake_response(&format!("HTTP/1.0 101 Switching Protocols\r\n{}", fields), KEY),
        Err(ScError::LowerHttpVersion)
    );
    assert_eq!(
        verify_handshake_response(&format!("garbage\r\n{}", fields), KEY),
        Err(ScError::InvalidHttpResponse)
    );
    assert_eq!(
        verify_handshake_response("HTTP/1.1 400 Bad Request\r\n\r\n", KEY),
        Err(ScError::InvalidStatusCode)
    );
}

#[test]
fn answer_without_fields_fails_on_the_fields() {
    assert_eq!(
        verify_handshake_response("HTTP/1.1 101 Switching Protocols\r\n\r\n", KEY),
        Err(ScError::InvalidHandshakeHeader)
    );
    assert_eq!(
        verify_handshake_response(
            "HTTP/1.1 101 Switching Protocols\r\n\r\nUpgrade: websocket\r\n\
             Connection: Upgrade\r\nSec-WebSocket-Accept: s3pPLMBiTxaQ9kYGzzhZRbK+xOo=\r\n",
            KEY
        ),
        Err(ScError::InvalidHandshakeHeader)
    );
}

#[test]
fn key_is_the_base64_text_of_the_nonce() {
    assert_eq!(key_from_nonce(&[0u8; 16]), "AAAAAAAAAAAAAAAAAAAAAA==");
    assert_eq!(key_from_nonce(b"the sample nonce"), KEY);
    assert_eq!(key_from_nonce(&[0xffu8; 16]), "/////////////////////w==");
}

#[test]
fn generated_key_is_base64_of_sixteen_bytes() {
    let key = generate_key();

    assert_eq!(key.len(), 24);
    assert!(key.ends_with("=="));
    assert!(key[..22]
        .chars()
        .all(|c| c.is_ascii_alphanumeric() || c == '+' || c == '/'));
}

#[test]
fn upgrade_request_text() {
    let url = WebSocketUrl::from_url("ws://server.example.com:8080/chat?room=1").unwrap();

    assert_eq!(
        build_request(&url, KEY),
        "GET /chat?room=1 HTTP/1.1\r\n\
         Host: server.example.com\r\n\
         Upgrade: websocket\r\n\
         Connection: Upgrade\r\n\
         Sec-WebSocket-Key: dGhlIHNhbXBsZSBub25jZQ==\r\n\
         Sec-WebSocket-Version: 13\r\n\r\n"
    );
}

#[test]
fn client_and_server_complete_the_handshake() {
    let url = WebSocketUrl::from_url("ws://127.0.0.1:8080/chat").unwrap();
    let key = generate_key();
    let request = build_request(&url, &key);

    let handshake = HandShake::perform(&request);
    assert_eq!(handshake.state, ConnectionStatus::Connecting);
    assert_eq!(handshake.request.as_ref().expect("request").resource, "/chat");

    let answer = handshake.response.to_string();
    assert_eq!(verify_handshake_response(&answer, &key), Ok(()));
    assert_eq!(
        verify_handshake_response(&answer, "not the key"),
        Err(ScError::InvalidHandshakeHeader)
    );
}

#[test]
fn refusal_does_not_verify_on_the_client() {
    let handshake = HandShake::perform("GET /chat HTTP/1.1\r\n\r\n");
    assert_eq!(
        verify_handshake_response(&handshake.response.to_string(), KEY),
        Err(ScError::InvalidStatusCode)
    );
}

#[test]
fn empty_message_has_no_frame() {
    assert_eq!(encode_message(""), Err(ScError::DataFrameError));
}

#[test]
fn message_is_sent_as_a_masked_text_frame() {
    let wire = encode_message("Hello").expect("a message has a frame");

    assert_eq!(wire.len(), 2 + 4 + 5);
    assert_eq!(wire[0], 0x81);
    assert_eq!(wire[1], 0x85);
    let key = [wire[2], wire[3], wire[4], wire[5]];
    let plain: Vec<u8> = wire[6..].iter().enumerate().map(|(i, b)| b ^ key[i % 4]).collect();
    assert_eq!(plain, b"Hello".to_vec());

    let frame = DataFrame::try_from(&wire[..]).expect("the frame decodes");
    assert_eq!(frame.payload, b"Hello".to_vec());
    assert_eq!(frame.get_opcode(), OpCode::Text);
    assert!(frame.is_masked());
    assert!(frame.is_final_fragment());
}

#[test]
fn long_message_is_sent_with_an_extended_length() {
    let message = "ä".repeat(40000);
    let wire = encode_message(&message).expect("a message has a frame");

    assert_eq!(wire.len(), 10 + 4 + 80000);
    assert_eq!(wire[1], 0xff);
    let frame = DataFrame::try_from(&wire[..]).expect("the frame decodes");
    assert_eq!(String::from_utf8(frame.payload).unwrap(), message);
}
