//! The wire protocol: frames, command and response objects, and the
//! thermometer datagram, each encoding read back as itself.

use smart_home::protocol::now_ms;
use smart_home::protocol::socket_protocol::{
    decode_frame, encode_command, encode_frame, encode_response, header_payload_len,
    parse_command, parse_response, ProtocolError, SocketCommand, SocketData, SocketResponse,
    MAX_MESSAGE_SIZE,
};
use smart_home::protocol::therm_protocol::{encode_therm_data, parse_therm_data, ThermData};

#[test]
fn now_ms_returns_valid_timestamp() {
    let timestamp = now_ms();

    assert!(timestamp > 0);

    let year_2020_ms = 1_577_836_800_000u64;
    assert!(
        timestamp > year_2020_ms,
        "Timestamp {} seems too old",
        timestamp
    );

    let year_2050_ms = 2_524_608_000_000u64;
    assert!(
        timestamp < year_2050_ms,
        "Timestamp {} seems too far in future",
        timestamp
    );
}

#[test]
fn test_serialization_formats() {
    let command = SocketCommand::TurnOn;
    let json = String::from_utf8(encode_command(&command)).unwrap();
    assert!(json.contains("turn_on"));

    let response = SocketResponse::Okay(SocketData {
        active: true,
        power: 100000,
        device_id: None,
    });
    let json = String::from_utf8(encode_response(&response).unwrap()).unwrap();
    assert!(json.contains("\"result\":\"ok\""));
    assert!(json.contains("\"active\":true"));
    assert!(json.contains("\"power\":1000.0"));
}

#[test]
fn command_encodings_read_back() {
    for command in [
        SocketCommand::TurnOn,
        SocketCommand::TurnOff,
        SocketCommand::Power,
    ] {
        let bytes = encode_command(&command);
        assert_eq!(parse_command(&bytes), Ok(command));
    }
}

#[test]
fn command_json_is_exact() {
    assert_eq!(
        String::from_utf8(encode_command(&SocketCommand::TurnOn)).unwrap(),
        "{\"command\":\"turn_on\"}"
    );
    assert_eq!(
        String::from_utf8(encode_command(&SocketCommand::TurnOff)).unwrap(),
        "{\"command\":\"turn_off\"}"
    );
    assert_eq!(
        String::from_utf8(encode_command(&SocketCommand::Power)).unwrap(),
        "{\"command\":\"power\"}"
    );
}

#[test]
fn response_round_trip_with_device_id() {
    let response = SocketResponse::Okay(SocketData {
        active: true,
        power: 200000,
        device_id: Some("test_socket".to_string()),
    });
    let bytes = encode_response(&response).unwrap();
    assert_eq!(
        String::from_utf8(bytes.clone()).unwrap(),
        "{\"result\":\"ok\",\"active\":true,\"power\":2000.0,\"device_id\":\"test_socket\"}"
    );
    assert_eq!(parse_response(&bytes), Ok(response));
}

#[test]
fn error_response_round_trip() {
    let response = SocketResponse::Error {
        message: "Device overheating".to_string(),
    };
    let bytes = encode_response(&response).unwrap();
    assert_eq!(
        String::from_utf8(bytes.clone()).unwrap(),
        "{\"result\":\"error\",\"message\":\"Device overheating\"}"
    );
    assert_eq!(parse_response(&bytes), Ok(response));
}

#[test]
fn malformed_response_is_rejected() {
    for bad in [
        "",
        "{\"result\":\"ok\"}",
        "{\"result\":\"ok\",\"active\":maybe,\"power\":1.0,\"device_id\":null}",
        "{\"result\":\"nope\",\"message\":\"x\"}",
    ] {
        assert_eq!(
            parse_response(bad.as_bytes()),
            Err(ProtocolError::Malformed)
        );
    }
}

#[test]
fn frame_round_trip() {
    let payload = b"{\"command\":\"power\"}";
    let frame = encode_frame(payload);
    assert_eq!(frame.len(), payload.len() + 4);
    let (decoded, used) = decode_frame(&frame).unwrap();
    assert_eq!(decoded, payload.to_vec());
    assert_eq!(used, frame.len());
}

#[test]
fn test_message_size_limit() {
    let huge_message = "x".repeat(2 * 1024 * 1024);
    let frame = encode_frame(huge_message.as_bytes());
    let result = decode_frame(&frame);
    assert!(result.is_err());
    assert_eq!(result.unwrap_err(), ProtocolError::MessageTooLarge);
}

#[test]
fn short_frame_is_incomplete() {
    let payload = b"{\"command\":\"power\"}";
    let frame = encode_frame(payload);
    assert_eq!(
        decode_frame(&frame[..frame.len() - 1]),
        Err(ProtocolError::UnexpectedEof)
    );
    assert_eq!(decode_frame(&frame[..2]), Err(ProtocolError::UnexpectedEof));
}

#[test]
fn header_guards_the_size_limit() {
    let frame = encode_frame(&[7u8; 16]);
    assert_eq!(header_payload_len(&frame[..4]), Ok(16));

    let over = (MAX_MESSAGE_SIZE + 1) as u32;
    let header = [
        (over >> 24) as u8,
        (over >> 16) as u8,
        (over >> 8) as u8,
        over as u8,
    ];
    assert_eq!(
        header_payload_len(&header),
        Err(ProtocolError::MessageTooLarge)
    );
}

#[test]
fn therm_data_serialization() {
    let data = ThermData {
        temperature: 2250,
        device_id: Some("kitchen_001".to_string()),
    };

    let json = String::from_utf8(encode_therm_data(&data).expect("Failed to serialize")).unwrap();
    let expected = "{\"temperature\":22.5,\"device_id\":\"kitchen_001\"}";
    assert_eq!(json, expected);
}

#[test]
fn therm_data_serialization_no_device_id() {
    let data = ThermData {
        temperature: -1000,
        device_id: None,
    };

    let json = String::from_utf8(encode_therm_data(&data).expect("Failed to serialize")).unwrap();
    let expected = "{\"temperature\":-10.0,\"device_id\":null}";
    assert_eq!(json, expected);
}

#[test]
fn therm_data_deserialization() {
    let json = "{\"temperature\":22.5,\"device_id\":\"kitchen_001\"}";
    let data = parse_therm_data(json.as_bytes()).expect("Failed to deserialize");

    assert_eq!(data.temperature, 2250);
    assert_eq!(data.device_id, Some("kitchen_001".to_string()));
}

#[test]
fn therm_data_deserialization_no_device_id() {
    let json = "{\"temperature\":-5.5,\"device_id\":null}";
    let data = parse_therm_data(json.as_bytes()).expect("Failed to deserialize");

    assert_eq!(data.temperature, -550);
    assert_eq!(data.device_id, None);
}

#[test]
fn therm_data_round_trip() {
    let original = ThermData {
        temperature: 9999,
        device_id: Some("test_device_123".to_string()),
    };

    let json = encode_therm_data(&original).expect("Failed to serialize");
    let restored = parse_therm_data(&json).expect("Failed to deserialize");

    assert_eq!(original.temperature, restored.temperature);
    assert_eq!(original.device_id, restored.device_id);
}

#[test]
fn invalid_json_handling() {
    let invalid_cases = vec![
        "{\"temperature\":\"not_a_number\",\"device_id\":\"test\"}",
        "{\"wrong_field\":22.5,\"device_id\":\"test\"}",
        "invalid json",
        "{\"temperature\":22.5",
        "{}",
    ];

    for invalid_json in invalid_cases {
        let result = parse_therm_data(invalid_json.as_bytes());
        assert!(
            result.is_err(),
            "Should fail for invalid JSON: {}",
            invalid_json
        );
    }
}

#[test]
fn labels_with_quotes_and_backslashes_round_trip() {
    let data = ThermData {
        temperature: 2250,
        device_id: Some("a\"b\\c".to_string()),
    };
    let json = encode_therm_data(&data).expect("Failed to serialize");
    assert_eq!(
        String::from_utf8(json.clone()).unwrap(),
        "{\"temperature\":22.5,\"device_id\":\"a\\\"b\\\\c\"}"
    );
    let restored = parse_therm_data(&json).expect("Failed to deserialize");
    assert_eq!(restored.device_id, Some("a\"b\\c".to_string()));
}

#[test]
fn labels_beyond_ascii_round_trip() {
    let data = ThermData {
        temperature: -550,
        device_id: Some("спальня °C — τ".to_string()),
    };
    let json = encode_therm_data(&data).expect("Failed to serialize");
    let restored = parse_therm_data(&json).expect("Failed to deserialize");
    assert_eq!(restored.temperature, -550);
    assert_eq!(restored.device_id, Some("спальня °C — τ".to_string()));
}

#[test]
fn control_characters_are_escaped() {
    let data = ThermData {
        temperature: 100,
        device_id: Some("a\nb\tc".to_string()),
    };
    let json = encode_therm_data(&data).expect("Failed to serialize");
    assert_eq!(
        String::from_utf8(json.clone()).unwrap(),
        "{\"temperature\":1.0,\"device_id\":\"a\\u000ab\\u0009c\"}"
    );
    let restored = parse_therm_data(&json).expect("Failed to deserialize");
    assert_eq!(restored.device_id, Some("a\nb\tc".to_string()));
}

#[test]
fn error_messages_with_quotes_round_trip() {
    let response = SocketResponse::Error {
        message: "pipe \"A\\B\" broke".to_string(),
    };
    let bytes = encode_response(&response).unwrap();
    assert_eq!(parse_response(&bytes), Ok(response));
}

#[test]
fn stray_escapes_are_rejected() {
    for bad in [
        "{\"temperature\":1.0,\"device_id\":\"a\\x\"}",
        "{\"temperature\":1.0,\"device_id\":\"a\\\"}",
        "{\"temperature\":1.0,\"device_id\":\"a\\u00ZZ\"}",
        "{\"temperature\":1.0,\"device_id\":\"a\\u0041\"}",
    ] {
        assert!(
            parse_therm_data(bad.as_bytes()).is_err(),
            "must reject: {}",
            bad
        );
    }
}
