use rusty_socket::DataFrame;
use rusty_socket::ExtendedPayLoadLength;
use rusty_socket::OpCode;
use rusty_socket::RsError;

#[test]
fn test_fin_bit_modification() {
    let mut frame = DataFrame {
        fin_rscv_opcode: 0b00101011,
        mask_payload_length: 141,
        extended_payload_length: None,
        masking_key: None,
        payload: Vec::new(),
    };
    frame.set_final_fragment();
    assert_eq!(true, frame.is_final_fragment());

    frame.unset_final_fragment();
    assert_eq!(false, frame.is_final_fragment());
}

#[test]
fn test_mask_bit_modification() {
    let mut frame = DataFrame {
        fin_rscv_opcode: 0b00101011,
        mask_payload_length: 0b10010111,
        extended_payload_length: None,
        masking_key: None,
        payload: Vec::new(),
    };
    frame.unset_masked();
    assert_eq!(false, frame.is_masked());

    frame.set_masked();
    assert_eq!(true, frame.is_masked());
}

#[test]
fn test_opcode_parser() {
    let frame = DataFrame {
        fin_rscv_opcode: 0b00101010,
        mask_payload_length: 0b10010111,
        extended_payload_length: None,
        masking_key: None,
        payload: Vec::new(),
    };
    assert_eq!(OpCode::from(10), frame.get_opcode());
    assert_eq!(OpCode::Pong, frame.get_opcode());
}

#[test]
fn test_control_frame() {
    let frame = DataFrame {
        fin_rscv_opcode: 0b00101000,
        mask_payload_length: 0b10010111,
        extended_payload_length: None,
        masking_key: None,
        payload: Vec::new(),
    };
    assert_eq!(true, frame.is_control_frame());
}

#[test]
fn test_payload_length() {
    let frame = DataFrame {
        fin_rscv_opcode: 0b00101000,
        mask_payload_length: 0b10010111,
        extended_payload_length: None,
        masking_key: None,
        payload: Vec::new(),
    };
    assert_eq!(23, frame.get_payload_length());
}

#[test]
fn test_valid_frame() {
    // FIN + Text, Not Mask + 1-byte payload length, payload: 1
    let raw_data: &[u8] = &[0b10000001, 0b00000001, 1];
    let frame: DataFrame = raw_data.try_into().expect("Failed to deserialize");

    assert_eq!(frame.fin_rscv_opcode, 0b10000001);
    assert_eq!(frame.mask_payload_length, 0b00000001);
    assert_eq!(frame.payload, vec![1]);
}

#[test]
fn test_valid_frame_string() {
    let raw_data: &[u8] = &[0x81, 0x05, 0x48, 0x65, 0x6c, 0x6c, 0x6f];

    let frame: DataFrame = raw_data.try_into().expect("Failed to deserialize");
    assert_eq!(
        String::from_utf8(frame.payload).unwrap(),
        "Hello".to_string()
    );
}

#[test]
fn test_valid_frame_string_masked() {
    let raw_data: &[u8] = &[
        0x81, 0x85, 0x37, 0xfa, 0x21, 0x3d, 0x7f, 0x9f, 0x4d, 0x51, 0x58,
    ];

    let frame: DataFrame = raw_data.try_into().expect("Failed to deserialize");

    assert_eq!(
        String::from_utf8(frame.payload).unwrap(),
        "Hello".to_string()
    );
}

#[test]
fn test_invalid_frame_insufficient_data() {
    let raw_data: &[u8] = &[0b10000001]; // Only 1 byte
    let result: Result<DataFrame, RsError> = raw_data.try_into();
    assert!(result.is_err());
    assert_eq!(result.unwrap_err().to_string(), "Insufficient Data");
}

fn decode(raw: &[u8]) -> Result<DataFrame, RsError> {
    DataFrame::try_from(raw)
}

fn payload_of(length: usize) -> Vec<u8> {
    (0..length).map(|i| (i * 7 + 3) as u8).collect()
}

#[test]
fn bit_setters_leave_the_other_bits() {
    let mut frame = DataFrame {
        fin_rscv_opcode: 0b00101011,
        mask_payload_length: 141,
        extended_payload_length: None,
        masking_key: None,
        payload: vec![9, 8],
    };
    frame.set_final_fragment();
    assert_eq!(frame.fin_rscv_opcode, 0b10101011);
    frame.set_final_fragment();
    assert_eq!(frame.fin_rscv_opcode, 0b10101011);
    frame.unset_final_fragment();
    assert_eq!(frame.fin_rscv_opcode, 0b00101011);
    frame.unset_masked();
    assert_eq!(frame.mask_payload_length, 13);
    frame.unset_masked();
    assert_eq!(frame.mask_payload_length, 13);
    frame.set_masked();
    assert_eq!(frame.mask_payload_length, 141);
    assert_eq!(frame.payload, vec![9, 8]);
}

#[test]
fn control_frames_have_the_high_opcode_bit() {
    for byte in 0..=255u8 {
        let frame = DataFrame {
            fin_rscv_opcode: byte,
            mask_payload_length: 0,
            extended_payload_length: None,
            masking_key: None,
            payload: Vec::new(),
        };
        assert_eq!(frame.is_control_frame(), byte & 0x08 != 0);
        assert_eq!(frame.get_opcode(), OpCode::from(byte & 0x0f));
        assert_eq!(frame.is_final_fragment(), byte >= 128);
    }
}

#[test]
fn apply_mask_xors_with_the_key_and_is_its_own_inverse() {
    let mut frame = DataFrame {
        fin_rscv_opcode: 0x81,
        mask_payload_length: 0x85,
        extended_payload_length: None,
        masking_key: Some([0x37, 0xfa, 0x21, 0x3d]),
        payload: vec![0x7f, 0x9f, 0x4d, 0x51, 0x58],
    };
    frame.apply_mask();
    assert_eq!(frame.payload, b"Hello".to_vec());
    frame.apply_mask();
    assert_eq!(frame.payload, vec![0x7f, 0x9f, 0x4d, 0x51, 0x58]);
}

#[test]
fn apply_mask_without_key_changes_nothing() {
    let mut frame = DataFrame {
        fin_rscv_opcode: 0x81,
        mask_payload_length: 0x03,
        extended_payload_length: None,
        masking_key: None,
        payload: vec![1, 2, 3],
    };
    frame.apply_mask();
    assert_eq!(frame.payload, vec![1, 2, 3]);
}

#[test]
fn unknown_opcode_cannot_be_encoded() {
    assert!(DataFrame::from_data(b"x", OpCode::Unknown, false).is_none());
    assert!(DataFrame::from_data(b"x", OpCode::Unknown, true).is_none());
    assert!(DataFrame::from_data_with_key(b"x", OpCode::Unknown, Some([1, 2, 3, 4])).is_none());
}

#[test]
fn short_payload_is_encoded_with_its_length_in_the_indicator() {
    let frame = DataFrame::from_data(b"Hello", OpCode::Text, false).unwrap();

    assert_eq!(frame.fin_rscv_opcode, 0x81);
    assert_eq!(frame.mask_payload_length, 0x05);
    assert_eq!(frame.extended_payload_length, None);
    assert_eq!(frame.masking_key, None);
    assert_eq!(frame.payload, b"Hello".to_vec());
    assert_eq!(frame.to_bytes(), vec![0x81, 0x05, 0x48, 0x65, 0x6c, 0x6c, 0x6f]);
}

#[test]
fn masked_frame_with_a_given_key_has_the_expected_bytes() {
    let frame =
        DataFrame::from_data_with_key(b"Hello", OpCode::Text, Some([0x37, 0xfa, 0x21, 0x3d]))
            .unwrap();

    assert_eq!(frame.mask_payload_length, 0x85);
    assert_eq!(frame.masking_key, Some([0x37, 0xfa, 0x21, 0x3d]));
    assert_eq!(frame.payload, vec![0x7f, 0x9f, 0x4d, 0x51, 0x58]);
    assert_eq!(
        frame.to_bytes(),
        vec![0x81, 0x85, 0x37, 0xfa, 0x21, 0x3d, 0x7f, 0x9f, 0x4d, 0x51, 0x58]
    );
}

#[test]
fn length_forms_change_at_126_and_65536() {
    let frame = DataFrame::from_data(&payload_of(125), OpCode::Binary, false).unwrap();
    assert_eq!(frame.mask_payload_length, 125);
    assert_eq!(frame.extended_payload_length, None);
    assert_eq!(frame.to_bytes().len(), 2 + 125);

    let frame = DataFrame::from_data(&payload_of(126), OpCode::Binary, false).unwrap();
    assert_eq!(frame.mask_payload_length, 126);
    assert_eq!(frame.extended_payload_length, Some(ExtendedPayLoadLength::Medium(126)));
    assert_eq!(&frame.to_bytes()[..4], &[0x82, 126, 0, 126]);

    let frame = DataFrame::from_data(&payload_of(65535), OpCode::Binary, false).unwrap();
    assert_eq!(frame.mask_payload_length, 126);
    assert_eq!(frame.extended_payload_length, Some(ExtendedPayLoadLength::Medium(65535)));
    assert_eq!(&frame.to_bytes()[..4], &[0x82, 126, 0xff, 0xff]);

    let frame = DataFrame::from_data(&payload_of(65536), OpCode::Binary, true).unwrap();
    assert_eq!(frame.mask_payload_length, 0x80 | 127);
    assert_eq!(frame.extended_payload_length, Some(ExtendedPayLoadLength::Large(65536)));
    assert_eq!(&frame.to_bytes()[..10], &[0x82, 0xff, 0, 0, 0, 0, 0, 1, 0, 0]);
    assert_eq!(frame.to_bytes().len(), 10 + 4 + 65536);
}

#[test]
fn encode_then_decode_gives_the_payload_back() {
    let opcodes = [
        OpCode::ContinuationFrame,
        OpCode::Text,
        OpCode::Binary,
        OpCode::ConnectionClose,
        OpCode::Ping,
        OpCode::Pong,
    ];
    for length in [0usize, 1, 5, 125, 126, 127, 300, 65535, 65536, 70000] {
        let payload = payload_of(length);
        for opcode in opcodes {
            for mask in [false, true] {
                let frame = DataFrame::from_data(&payload, opcode, mask).unwrap();
                assert_eq!(frame.is_masked(), mask);
                assert_eq!(frame.masking_key.is_some(), mask);
                assert!(frame.is_final_fragment());
                assert_eq!(frame.get_opcode(), opcode);
                let wire = frame.to_bytes();
                let decoded = decode(&wire).expect("an encoded frame decodes");
                assert_eq!(decoded.payload, payload);
                assert_eq!(decoded.fin_rscv_opcode, frame.fin_rscv_opcode);
                assert_eq!(decoded.mask_payload_length, frame.mask_payload_length);
                assert_eq!(decoded.extended_payload_length, frame.extended_payload_length);
                assert_eq!(decoded.masking_key, frame.masking_key);
            }
        }
    }
}

#[test]
fn masked_payload_differs_from_the_plain_one_unless_the_key_is_zero() {
    let frame = DataFrame::from_data_with_key(&[0u8; 8], OpCode::Binary, Some([1, 2, 3, 4]))
        .unwrap();
    assert_eq!(frame.payload, vec![1, 2, 3, 4, 1, 2, 3, 4]);

    let frame = DataFrame::from_data_with_key(&[5u8; 3], OpCode::Binary, Some([0, 0, 0, 0]))
        .unwrap();
    assert_eq!(frame.payload, vec![5, 5, 5]);
}

#[test]
fn decoding_ignores_bytes_behind_the_frame() {
    let frame = decode(&[0x81, 0x02, b'h', b'i', 0xde, 0xad]).unwrap();
    assert_eq!(frame.payload, b"hi".to_vec());
}

#[test]
fn decoding_reads_extended_lengths_high_byte_first() {
    let mut raw = vec![0x82, 126, 0x01, 0x00];
    raw.extend(payload_of(256));
    let frame = decode(&raw).unwrap();
    assert_eq!(frame.extended_payload_length, Some(ExtendedPayLoadLength::Medium(256)));
    assert_eq!(frame.payload, payload_of(256));

    let mut raw = vec![0x82, 127, 0, 0, 0, 0, 0, 0, 0x01, 0x02];
    raw.extend(payload_of(258));
    let frame = decode(&raw).unwrap();
    assert_eq!(frame.extended_payload_length, Some(ExtendedPayLoadLength::Large(258)));
    assert_eq!(frame.payload, payload_of(258));
}

#[test]
fn decoding_less_than_two_bytes_is_incomplete() {
    assert_eq!(decode(&[]).unwrap_err(), RsError::IncompleteData);
    assert_eq!(decode(&[0x81]).unwrap_err(), RsError::IncompleteData);
    assert_eq!(decode(&[0x01]).unwrap_err(), RsError::IncompleteData);
}

#[test]
fn decoding_a_frame_that_is_not_final_fails() {
    assert_eq!(decode(&[0x01, 0x00]).unwrap_err(), RsError::FragmentationNotSupported);
    assert_eq!(decode(&[0x0f, 0x00]).unwrap_err(), RsError::FragmentationNotSupported);
    assert_eq!(
        decode(&[0x01, 0x05, b'H', b'e', b'l', b'l', b'o']).unwrap_err(),
        RsError::FragmentationNotSupported
    );
}

#[test]
fn decoding_an_opcode_above_ten_fails() {
    for code in 11..=15u8 {
        assert_eq!(decode(&[0x80 | code, 0x00]).unwrap_err(), RsError::InvalidOpCode);
    }
    assert!(decode(&[0x8a, 0x00]).is_ok());
    assert_eq!(decode(&[0x83, 0x00]).unwrap().get_opcode(), OpCode::Unknown);
}

#[test]
fn decoding_a_cut_frame_is_incomplete_at_every_stage() {
    assert_eq!(decode(&[0x81, 126, 0]).unwrap_err(), RsError::IncompleteData);
    assert_eq!(decode(&[0x81, 127, 0, 0, 0, 0, 0, 0, 0]).unwrap_err(), RsError::IncompleteData);
    assert_eq!(decode(&[0x81, 0x80, 1, 2, 3]).unwrap_err(), RsError::IncompleteData);
    assert_eq!(decode(&[0x81, 126 | 0x80, 0, 0, 1, 2, 3]).unwrap_err(), RsError::IncompleteData);
    assert_eq!(decode(&[0x81, 0x05, b'H', b'e', b'l', b'l']).unwrap_err(), RsError::IncompleteData);
    assert_eq!(
        decode(&[0x81, 127, 0xff, 0xff, 0xff, 0xff, 0xff, 0xff, 0xff, 0xff, 1]).unwrap_err(),
        RsError::IncompleteData
    );
}

#[test]
fn decoding_an_empty_frame() {
    let frame = decode(&[0x88, 0x00]).unwrap();
    assert_eq!(frame.get_opcode(), OpCode::ConnectionClose);
    assert!(frame.payload.is_empty());
    assert!(frame.is_control_frame());
    assert!(!frame.is_masked());

    let frame = decode(&[0x89, 0x80, 9, 9, 9, 9]).unwrap();
    assert_eq!(frame.masking_key, Some([9, 9, 9, 9]));
    assert!(frame.payload.is_empty());
}

#[test]
fn extended_length_size_and_value() {
    assert_eq!(ExtendedPayLoadLength::Medium(300).get_size(), 2);
    assert_eq!(ExtendedPayLoadLength::Medium(300).get_value(), 300);
    assert_eq!(ExtendedPayLoadLength::Large(70000).get_size(), 8);
    assert_eq!(ExtendedPayLoadLength::Large(70000).get_value(), 70000);
}

#[test]
fn frame_error_messages() {
    assert_eq!(RsError::ProtocolError.to_string(), "Protocol Error");
    assert_eq!(RsError::MethodNotAllowed.to_string(), "Method Not Allowed");
    assert_eq!(RsError::BadRequest.to_string(), "Bad Request");
    assert_eq!(RsError::UnprocessableContent.to_string(), "Unprocessable Content");
    assert_eq!(RsError::UpgradeRequired.to_string(), "Upgrade Required");
    assert_eq!(RsError::IncompleteData.to_string(), "Insufficient Data");
    assert_eq!(RsError::FragmentationNotSupported.to_string(), "Fragmentation Not yet Supported");
    assert_eq!(RsError::InvalidOpCode.to_string(), "Invalid Opcode");
}

#[test]
fn frame_as_text() {
    let frame = DataFrame::try_from(&[0x81u8, 0x05, 0x48, 0x65, 0x6c, 0x6c, 0x6f][..]).unwrap();
    assert_eq!(frame.to_string(), "0x81 0x05 None None 0x48 0x65 0x6c 0x6c 0x6f ");

    let frame = DataFrame::from_data_with_key(&[0x00, 0xff], OpCode::Pong, Some([0x0a, 0xb0, 1, 2]))
        .unwrap();
    assert_eq!(frame.to_string(), "0x8a 0x82 None 0x0a 0xb0 0x01 0x02 0x0a 0x4f ");

    let frame = DataFrame {
        fin_rscv_opcode: 0x82,
        mask_payload_length: 126,
        extended_payload_length: Some(ExtendedPayLoadLength::Medium(300)),
        masking_key: None,
        payload: Vec::new(),
    };
    assert_eq!(frame.to_string(), "0x82 0x7e 2byte-300 None ");
}

#[test]
fn extended_length_as_text() {
    assert_eq!(ExtendedPayLoadLength::Medium(0).to_string(), "2byte-0");
    assert_eq!(ExtendedPayLoadLength::Medium(65535).to_string(), "2byte-65535");
    assert_eq!(ExtendedPayLoadLength::Large(65536).to_string(), "8byte-65536");
    assert_eq!(
        ExtendedPayLoadLength::Large(u64::MAX).to_string(),
        "8byte-18446744073709551615"
    );
}
