use webrtc_signaling::codec::{decode, encode};
use webrtc_signaling::messages::SignalingMessage;

fn offer(peer: &str, sdp: &str) -> SignalingMessage {
    SignalingMessage::Offer { peer: peer.to_string(), sdp: sdp.to_string() }
}

fn answer(peer: &str, sdp: &str) -> SignalingMessage {
    SignalingMessage::Answer { peer: peer.to_string(), sdp: sdp.to_string() }
}

#[test]
fn round_trip_offer() {
    let m = offer("peer-a", "v=0\r\no=- 46117 2 IN IP4 127.0.0.1\r\ns=-\r\n");
    let wire = encode(&m).unwrap();
    let back = decode(&wire).unwrap();
    assert_eq!(back, m);
}

#[test]
fn round_trip_answer() {
    let m = answer("peer-b", "v=0\r\na=fingerprint:sha-256 AB:CD\r\n");
    let wire = encode(&m).unwrap();
    let back = decode(&wire).unwrap();
    assert_eq!(back, m);
}

#[test]
fn round_trip_offer_with_quotes_and_tabs() {
    let m = offer("p\"q\\r", "line1\n\tline2 \"quoted\"");
    let wire = encode(&m).unwrap();
    let back = decode(&wire).unwrap();
    assert_eq!(back, m);
}

#[test]
fn round_trip_ice_all_fields() {
    let m = SignalingMessage::IceCandidate {
        peer: "peer-c".to_string(),
        candidate: "candidate:1 1 UDP 2130706431 192.168.0.2 54400 typ host".to_string(),
        sdp_mid: Some("0".to_string()),
        sdp_mline_index: Some(0),
    };
    let wire = encode(&m).unwrap();
    let back = decode(&wire).unwrap();
    assert_eq!(back, m);
}

#[test]
fn round_trip_ice_absent_fields() {
    let m = SignalingMessage::IceCandidate {
        peer: "peer-d".to_string(),
        candidate: "candidate:2 1 TCP 1000 10.0.0.1 9 typ host tcptype active".to_string(),
        sdp_mid: None,
        sdp_mline_index: None,
    };
    let wire = encode(&m).unwrap();
    let back = decode(&wire).unwrap();
    assert_eq!(back, m);
}

#[test]
fn round_trip_ice_largest_index() {
    let m = SignalingMessage::IceCandidate {
        peer: "e".to_string(),
        candidate: "c".to_string(),
        sdp_mid: Some("audio".to_string()),
        sdp_mline_index: Some(65535),
    };
    let wire = encode(&m).unwrap();
    let back = decode(&wire).unwrap();
    assert_eq!(back, m);
}

#[test]
fn encode_offer_exact_text() {
    let m = offer("A", "v=0");
    let wire = encode(&m).unwrap();
    assert_eq!(wire, "{\"type\":\"offer\",\"payload\":{\"sdp\":\"v=0\",\"client_id\":\"A\"}}");
}

#[test]
fn encode_answer_exact_text() {
    let m = answer("B", "v=0");
    let wire = encode(&m).unwrap();
    assert_eq!(wire, "{\"type\":\"answer\",\"payload\":{\"sdp\":\"v=0\",\"client_id\":\"B\"}}");
}

#[test]
fn encode_ice_exact_text() {
    let m = SignalingMessage::IceCandidate {
        peer: "B".to_string(),
        candidate: "cand".to_string(),
        sdp_mid: Some("0".to_string()),
        sdp_mline_index: Some(1),
    };
    let wire = encode(&m).unwrap();
    assert_eq!(
        wire,
        "{\"type\":\"ice-candidate\",\"payload\":{\"candidate\":\"cand\",\"sdpMid\":\"0\",\"sdpMLineIndex\":1,\"client_id\":\"B\"}}"
    );
}

#[test]
fn encode_escapes_newlines() {
    let m = offer("A", "a\r\nb");
    let wire = encode(&m).unwrap();
    assert_eq!(wire, "{\"type\":\"offer\",\"payload\":{\"sdp\":\"a\\r\\nb\",\"client_id\":\"A\"}}");
}

#[test]
fn encoded_text_is_accepted_by_a_json_parser() {
    let m = offer("peer/a", "v=0\r\nm=audio 9 \"UDP\" \\RTP\\\r\n");
    let wire = encode(&m).unwrap();
    let v: serde_json::Value = serde_json::from_str(&wire).unwrap();
    assert_eq!(v["type"].as_str().unwrap(), "offer");
    assert_eq!(v["payload"]["client_id"].as_str().unwrap(), "peer/a");
    assert_eq!(v["payload"]["sdp"].as_str().unwrap(), "v=0\r\nm=audio 9 \"UDP\" \\RTP\\\r\n");
}

#[test]
fn encoded_ice_is_accepted_by_a_json_parser() {
    let m = SignalingMessage::IceCandidate {
        peer: "x".to_string(),
        candidate: "candidate:9".to_string(),
        sdp_mid: None,
        sdp_mline_index: Some(12),
    };
    let wire = encode(&m).unwrap();
    let v: serde_json::Value = serde_json::from_str(&wire).unwrap();
    assert_eq!(v["type"].as_str().unwrap(), "ice-candidate");
    assert!(v["payload"]["sdpMid"].is_null());
    assert_eq!(v["payload"]["sdpMLineIndex"].as_u64().unwrap(), 12);
    assert_eq!(v["payload"]["client_id"].as_str().unwrap(), "x");
}

#[test]
fn decode_rejects_missing_type_field() {
    assert!(decode("{\"payload\":{\"sdp\":\"v=0\",\"client_id\":\"A\"}}").is_err());
}

#[test]
fn decode_rejects_unrecognized_type() {
    assert!(decode("{\"type\":\"greeting\",\"payload\":{\"sdp\":\"v=0\",\"client_id\":\"A\"}}").is_err());
}

#[test]
fn decode_rejects_missing_required_fields() {
    assert!(decode("{\"type\":\"offer\",\"payload\":{}}").is_err());
    assert!(decode("{\"type\":\"offer\",\"payload\":{\"sdp\":\"v=0\"}}").is_err());
    assert!(decode("{\"type\":\"ice-candidate\",\"payload\":{\"candidate\":\"c\",\"client_id\":\"A\"}}").is_err());
}

#[test]
fn decode_rejects_unstructured_text() {
    assert!(decode("").is_err());
    assert!(decode("hello").is_err());
    assert!(decode("{\"type\":\"offer\"").is_err());
}

#[test]
fn decode_rejects_mistyped_index() {
    assert!(decode(
        "{\"type\":\"ice-candidate\",\"payload\":{\"candidate\":\"c\",\"sdpMid\":null,\"sdpMLineIndex\":\"one\",\"client_id\":\"A\"}}"
    ).is_err());
    assert!(decode(
        "{\"type\":\"ice-candidate\",\"payload\":{\"candidate\":\"c\",\"sdpMid\":null,\"sdpMLineIndex\":65536,\"client_id\":\"A\"}}"
    ).is_err());
}

#[test]
fn decode_accepts_canonical_ice() {
    let wire = "{\"type\":\"ice-candidate\",\"payload\":{\"candidate\":\"c\",\"sdpMid\":null,\"sdpMLineIndex\":65535,\"client_id\":\"A\"}}";
    let m = decode(wire).unwrap();
    assert_eq!(
        m,
        SignalingMessage::IceCandidate {
            peer: "A".to_string(),
            candidate: "c".to_string(),
            sdp_mid: None,
            sdp_mline_index: Some(65535),
        }
    );
}

#[test]
fn encode_rejects_unrepresentable_control_characters() {
    let m = offer("A", "v=0\u{1}");
    assert!(encode(&m).is_err());
    let m2 = offer("B\u{0}", "v=0");
    assert!(encode(&m2).is_err());
}

#[test]
fn round_trip_empty_texts() {
    let m = offer("", "");
    let wire = encode(&m).unwrap();
    assert_eq!(wire, "{\"type\":\"offer\",\"payload\":{\"sdp\":\"\",\"client_id\":\"\"}}");
    assert_eq!(decode(&wire).unwrap(), m);
}

#[test]
fn decode_rejects_trailing_garbage() {
    assert!(decode("{\"type\":\"offer\",\"payload\":{\"sdp\":\"v=0\",\"client_id\":\"A\"}} ").is_err());
}
