use rusty_socket::OpCode;

#[test]
fn test_u8_to_opcode() {
    assert_eq!(OpCode::from(0), OpCode::ContinuationFrame);
    assert_eq!(OpCode::from(1), OpCode::Text);
    assert_eq!(OpCode::from(2), OpCode::Binary);
    assert_eq!(OpCode::from(8), OpCode::ConnectionClose);
    assert_eq!(OpCode::from(9), OpCode::Ping);
    assert_eq!(OpCode::from(10), OpCode::Pong);
    assert_eq!(OpCode::from(255), OpCode::Unknown);
}

#[test]
fn test_opcode_to_u8() {
    assert_eq!(u8::from(OpCode::ContinuationFrame), 0);
    assert_eq!(u8::from(OpCode::Text), 1);
    assert_eq!(u8::from(OpCode::Binary), 2);
    assert_eq!(u8::from(OpCode::ConnectionClose), 8);
    assert_eq!(u8::from(OpCode::Ping), 9);
    assert_eq!(u8::from(OpCode::Pong), 10);
    assert_eq!(u8::from(OpCode::Unknown), 255);
}

#[test]
fn unassigned_codes_are_unknown() {
    for value in 0..=255u8 {
        let assigned = matches!(value, 0 | 1 | 2 | 8 | 9 | 10);
        assert_eq!(OpCode::from(value) != OpCode::Unknown, assigned);
        assert_eq!(OpCode::from(value).is_valid(), assigned);
        if assigned {
            assert_eq!(u8::from(OpCode::from(value)), value);
        }
    }
}

#[test]
fn opcode_survives_the_way_through_its_code() {
    let all = [
        OpCode::ContinuationFrame,
        OpCode::Text,
        OpCode::Binary,
        OpCode::ConnectionClose,
        OpCode::Ping,
        OpCode::Pong,
        OpCode::Unknown,
    ];
    for op in all {
        assert_eq!(OpCode::from(u8::from(op)), op);
    }
}

#[test]
fn only_unknown_is_not_valid() {
    assert!(OpCode::ContinuationFrame.is_valid());
    assert!(OpCode::Text.is_valid());
    assert!(OpCode::Binary.is_valid());
    assert!(OpCode::ConnectionClose.is_valid());
    assert!(OpCode::Ping.is_valid());
    assert!(OpCode::Pong.is_valid());
    assert!(!OpCode::Unknown.is_valid());
}
