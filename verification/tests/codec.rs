use session_bridge::channel::{check_received_count, dispatch_payload, Dispatch};
use session_bridge::codec::{decode, encode, encode_json, frame_len};
use session_bridge::frame::FrameState;
use session_bridge::messages::{message_eq, Message};

fn set_env_message(pairs: &[(&[u8], &[u8])]) -> Message {
    Message::SetEnv {
        variables: pairs.iter().map(|(k, v)| (k.to_vec(), v.to_vec())).collect(),
    }
}

fn payload_of(frame: &[u8]) -> Vec<u8> {
    frame[2..].to_vec()
}

#[test]
fn encode_set_env_exact_bytes() {
    let m = set_env_message(&[(b"WAYLAND_DISPLAY", b"wayland-1")]);
    let frame = encode(&m).expect("fits a frame");
    let text = br#"{"message":"set_env","variables":{"WAYLAND_DISPLAY":"wayland-1"}}"#;
    assert_eq!(frame[0] as usize + 256 * frame[1] as usize, text.len());
    assert_eq!(&frame[2..], &text[..]);
}

#[test]
fn encode_new_client_exact_bytes() {
    let m = Message::NewPrivilegedClient { count: 12 };
    let frame = encode(&m).expect("fits a frame");
    let text = br#"{"message":"new_privileged_client","count":12}"#;
    assert_eq!(frame[0] as usize + 256 * frame[1] as usize, text.len());
    assert_eq!(&frame[2..], &text[..]);
}

#[test]
fn round_trip_set_env_single_variable() {
    let m = set_env_message(&[(b"WAYLAND_DISPLAY", b"wayland-1")]);
    let frame = encode(&m).expect("fits a frame");
    let decoded = decode(&payload_of(&frame)).expect("well-formed frame");
    assert!(message_eq(&m, &decoded));
    match decoded {
        Message::SetEnv { variables } => {
            assert_eq!(variables.len(), 1);
            assert_eq!(variables[0].0, b"WAYLAND_DISPLAY".to_vec());
            assert_eq!(variables[0].1, b"wayland-1".to_vec());
        }
        _ => panic!("wrong variant"),
    }
}

#[test]
fn round_trip_set_env_empty_and_many() {
    for m in [
        set_env_message(&[]),
        set_env_message(&[(b"A", b"1"), (b"B", b"2"), (b"C", b"")]),
        set_env_message(&[(b"DISPLAY", b":0"), (b"SWAYSOCK", b"/run/sway.sock")]),
    ] {
        let frame = encode(&m).expect("fits a frame");
        let decoded = decode(&payload_of(&frame)).expect("well-formed frame");
        assert!(message_eq(&m, &decoded));
    }
}

#[test]
fn round_trip_escaped_values() {
    let m = set_env_message(&[
        (b"QUOTED", b"a\"b"),
        (b"BACKSLASH", b"c:\\d"),
        (b"NEWLINE", b"x\ny\r\tz"),
        (b"CONTROL", &[0x01, 0x1f, 0x7f, 0xc3, 0xa9]),
    ]);
    let frame = encode(&m).expect("fits a frame");
    let decoded = decode(&payload_of(&frame)).expect("well-formed frame");
    assert!(message_eq(&m, &decoded));
}

#[test]
fn escapes_appear_on_the_wire() {
    let m = set_env_message(&[(b"K", b"a\"b\\c\n")]);
    let json = encode_json(&m);
    let text = br#"{"message":"set_env","variables":{"K":"a\"b\\c\n"}}"#;
    assert_eq!(&json[..], &text[..]);
}

#[test]
fn control_byte_uses_unicode_escape() {
    let m = set_env_message(&[(b"K", &[0x1b])]);
    let json = encode_json(&m);
    let text = br#"{"message":"set_env","variables":{"K":"\u001b"}}"#;
    assert_eq!(&json[..], &text[..]);
}

#[test]
fn round_trip_new_client_counts() {
    for count in [0usize, 1, 7, 255, 65535, usize::MAX] {
        let m = Message::NewPrivilegedClient { count };
        let frame = encode(&m).expect("fits a frame");
        let decoded = decode(&payload_of(&frame)).expect("well-formed frame");
        match decoded {
            Message::NewPrivilegedClient { count: c } => assert_eq!(c, count),
            _ => panic!("wrong variant"),
        }
    }
}

#[test]
fn encode_refuses_oversized_payload() {
    let big = vec![b'x'; 70_000];
    let m = Message::SetEnv {
        variables: vec![(b"BIG".to_vec(), big)],
    };
    assert!(encode(&m).is_none());
}

#[test]
fn decode_rejects_unknown_tag() {
    let payload = br#"{"message":"open_window","count":1}"#.to_vec();
    assert!(decode(&payload).is_err());
}

#[test]
fn decode_rejects_malformed_structure() {
    for payload in [
        &br#"{"message":"set_env","variables":"#[..],
        &br#"{"message":"set_env","variables":{"K":}}"#[..],
        &br#"{"message":"new_privileged_client","count":}"#[..],
        &br#"{"message":"new_privileged_client","count":01}"#[..],
        &br#"{"message":"new_privileged_client","count":3"#[..],
        &br#"{"message":"new_privileged_client","count":3}}"#[..],
        &br#"hello"#[..],
        &b""[..],
    ] {
        assert!(decode(&payload.to_vec()).is_err());
    }
}

#[test]
fn decode_rejects_raw_control_bytes() {
    let mut payload = br#"{"message":"set_env","variables":{"K":"x"}}"#.to_vec();
    let pos = payload.iter().position(|&b| b == b'x').unwrap();
    payload[pos] = 0x01;
    assert!(decode(&payload).is_err());
}

#[test]
fn decode_rejects_count_overflow() {
    let payload = br#"{"message":"new_privileged_client","count":99999999999999999999999}"#
        .to_vec();
    assert!(decode(&payload).is_err());
}

#[test]
fn header_is_little_endian() {
    assert_eq!(frame_len(0x34, 0x12), 0x1234);
    let bytes = 0x1234u16.to_ne_bytes();
    assert_eq!(frame_len(bytes[0], bytes[1]), 0x1234);
}

#[test]
fn partial_reads_accumulate_like_one_read() {
    let m = set_env_message(&[(b"WAYLAND_DISPLAY", b"wayland-1")]);
    let frame = encode(&m).expect("fits a frame");
    let payload = payload_of(&frame);

    let state = FrameState::new();
    let state = state.start_body(frame[0], frame[1]);
    let mut state = state;
    let mut whole: Option<Vec<u8>> = None;
    for chunk in payload.chunks(7) {
        assert!(whole.is_none(), "complete only on the last chunk");
        let (next, out) = state.accept_chunk(chunk);
        state = next;
        whole = out;
    }
    let whole = whole.expect("last chunk completes the frame");
    assert_eq!(whole, payload);
    let split_read = decode(&whole).expect("well-formed frame");
    let single_read = decode(&payload).expect("well-formed frame");
    assert!(message_eq(&split_read, &single_read));
    assert!(matches!(state, FrameState::AwaitingHeader));
}

#[test]
fn channel_recovers_after_bad_frame() {
    // A malformed frame is dispatched as Ignored and leaves the machine at
    // AwaitingHeader; the next well-formed frame then decodes normally.
    let bad = br#"{"message":"set_env","variables":{broken"#.to_vec();
    let state = FrameState::new();
    let (state, out) = state
        .start_body((bad.len() % 256) as u8, (bad.len() / 256) as u8)
        .accept_chunk(&bad);
    let payload = out.expect("frame complete");
    assert!(matches!(dispatch_payload(&payload), Dispatch::Ignored));
    assert!(matches!(state, FrameState::AwaitingHeader));

    let m = Message::NewPrivilegedClient { count: 2 };
    let frame = encode(&m).expect("fits a frame");
    let (state, out) = state.start_body(frame[0], frame[1]).accept_chunk(&frame[2..]);
    let payload = out.expect("frame complete");
    match dispatch_payload(&payload) {
        Dispatch::AcceptClients { count } => assert_eq!(count, 2),
        Dispatch::Ignored => panic!("well-formed frame was ignored"),
    }
    assert!(matches!(state, FrameState::AwaitingHeader));
}

#[test]
fn inbound_set_env_is_ignored() {
    let m = set_env_message(&[(b"WAYLAND_DISPLAY", b"wayland-1")]);
    let frame = encode(&m).expect("fits a frame");
    assert!(matches!(dispatch_payload(&payload_of(&frame)), Dispatch::Ignored));
}

#[test]
fn descriptor_count_mismatch_is_hard_failure() {
    assert!(check_received_count(3, 3).is_ok());
    assert!(check_received_count(3, 2).is_err());
    assert!(check_received_count(0, 1).is_err());
    assert!(check_received_count(0, 0).is_ok());
}

#[test]
fn wire_text_is_ordinary_json() {
    // A general-purpose JSON parser reads the encoder's output and sees the
    // same structure the codec's own decoder sees.
    let m = set_env_message(&[(b"WAYLAND_DISPLAY", b"wayland-1"), (b"ESC", b"a\"b\\c\n\x01")]);
    let frame = encode(&m).expect("fits a frame");
    let text = String::from_utf8(payload_of(&frame)).expect("payload is text");
    let value: serde_json::Value = serde_json::from_str(&text).expect("payload is a json object");
    assert_eq!(value.get("message").and_then(|v| v.as_str()), Some("set_env"));
    let vars = value
        .get("variables")
        .and_then(|v| v.as_object())
        .expect("variables object");
    assert_eq!(vars.len(), 2);
    assert_eq!(
        vars.get("WAYLAND_DISPLAY").and_then(|v| v.as_str()),
        Some("wayland-1")
    );
    assert_eq!(vars.get("ESC").and_then(|v| v.as_str()), Some("a\"b\\c\n\x01"));

    let m = Message::NewPrivilegedClient { count: 42 };
    let frame = encode(&m).expect("fits a frame");
    let text = String::from_utf8(payload_of(&frame)).expect("payload is text");
    let value: serde_json::Value = serde_json::from_str(&text).expect("payload is a json object");
    assert_eq!(
        value.get("message").and_then(|v| v.as_str()),
        Some("new_privileged_client")
    );
    assert_eq!(value.get("count").and_then(|v| v.as_u64()), Some(42));
}

#[test]
fn decoder_reads_the_peer_serializer_form() {
    // The session manager serializes with a general-purpose JSON library;
    // the canonical form it produces for this tagged enum is what the
    // decoder must accept.
    let mut map = serde_json::Map::new();
    map.insert(
        "message".to_string(),
        serde_json::Value::String("new_privileged_client".to_string()),
    );
    map.insert("count".to_string(), serde_json::Value::from(3u64));
    let text = serde_json::to_string(&serde_json::Value::Object(map)).expect("serializable");
    // field order: the tag first, as the peer's derived serializer emits it
    let text = if text.starts_with("{\"count\"") {
        "{\"message\":\"new_privileged_client\",\"count\":3}".to_string()
    } else {
        text
    };
    let decoded = decode(&text.into_bytes()).expect("canonical peer frame");
    match decoded {
        Message::NewPrivilegedClient { count } => assert_eq!(count, 3),
        _ => panic!("wrong variant"),
    }
}
