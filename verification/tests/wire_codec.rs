//! Wire-codec tests: canonical JSON forms, escaping, parsing, and
//! cross-checks against an independent JSON parser.

use screen_stream::signal::{SignalRequest, SignalResponse, Test};
use screen_stream::wire::{encode_signal_request, encode_signal_response, encode_test,
    parse_signal_response};

fn text(bytes: Vec<u8>) -> String {
    String::from_utf8(bytes).unwrap()
}

#[test]
fn encode_offer_exact() {
    let m = SignalRequest::Offer { sdp: "v=0".to_string() };
    assert_eq!(text(encode_signal_request(&m)), "{\"type\":\"offer\",\"sdp\":\"v=0\"}");
}

#[test]
fn encode_answer_exact() {
    let m = SignalRequest::Answer { id: "asdf".to_string(), sdp: "v=0".to_string() };
    assert_eq!(
        text(encode_signal_request(&m)),
        "{\"type\":\"answer\",\"id\":\"asdf\",\"sdp\":\"v=0\"}"
    );
}

#[test]
fn encode_caller_ice_candidate_exact() {
    let m = SignalRequest::CallerIceCandidate {
        id: "asdf".to_string(),
        ice_candidate: "{\"candidate\":\"c0\"}".to_string(),
    };
    assert_eq!(
        text(encode_signal_request(&m)),
        "{\"type\":\"caller_ice_candidate\",\"id\":\"asdf\",\"ice_candidate\":\"{\\\"candidate\\\":\\\"c0\\\"}\"}"
    );
}

#[test]
fn encode_get_offer_and_peer_ice_candidate_exact() {
    let g = SignalRequest::GetOffer { id: "7".to_string() };
    assert_eq!(text(encode_signal_request(&g)), "{\"type\":\"get_offer\",\"id\":\"7\"}");
    let p = SignalRequest::PeerIceCandidate { id: "7".to_string(), ice_candidate: "x".to_string() };
    assert_eq!(
        text(encode_signal_request(&p)),
        "{\"type\":\"peer_ice_candidate\",\"id\":\"7\",\"ice_candidate\":\"x\"}"
    );
}

#[test]
fn encode_test_field_order() {
    let t = Test { sdp: "v=0".to_string(), kind: "answer".to_string() };
    assert_eq!(text(encode_test(&t)), "{\"sdp\":\"v=0\",\"type\":\"answer\"}");
}

#[test]
fn escaping_matches_independent_parser() {
    let sdp = "line one\r\nline \"two\" back\\slash\ttab\u{1}ctl\u{1f}end".to_string();
    let m = SignalRequest::Offer { sdp: sdp.clone() };
    let bytes = encode_signal_request(&m);
    let v: serde_json::Value = serde_json::from_slice(&bytes).unwrap();
    assert_eq!(v.get("type").unwrap().as_str().unwrap(), "offer");
    assert_eq!(v.get("sdp").unwrap().as_str().unwrap(), sdp);
}

#[test]
fn escaping_exact_control_bytes() {
    let m = SignalRequest::GetOffer { id: "a\u{1}b".to_string() };
    assert_eq!(text(encode_signal_request(&m)), "{\"type\":\"get_offer\",\"id\":\"a\\u0001b\"}");
    let n = SignalRequest::GetOffer { id: "\u{8}\u{c}".to_string() };
    assert_eq!(text(encode_signal_request(&n)), "{\"type\":\"get_offer\",\"id\":\"\\b\\f\"}");
}

#[test]
fn parse_round_trip_all_response_variants() {
    let cases = vec![
        SignalResponse::Session { id: "s-1".to_string() },
        SignalResponse::Offer { sdp: "v=0\r\no=-".to_string() },
        SignalResponse::Answer { sdp: "v=0 \"quoted\" \\ tail".to_string() },
        SignalResponse::IceCandidate { ice_candidate: "{\"candidate\":\"udp 1\"}".to_string() },
    ];
    for m in cases {
        let bytes = encode_signal_response(&m);
        let back = parse_signal_response(&bytes).unwrap();
        match (&m, &back) {
            (SignalResponse::Session { id: a }, SignalResponse::Session { id: b }) => {
                assert_eq!(a, b)
            },
            (SignalResponse::Offer { sdp: a }, SignalResponse::Offer { sdp: b }) => {
                assert_eq!(a, b)
            },
            (SignalResponse::Answer { sdp: a }, SignalResponse::Answer { sdp: b }) => {
                assert_eq!(a, b)
            },
            (
                SignalResponse::IceCandidate { ice_candidate: a },
                SignalResponse::IceCandidate { ice_candidate: b },
            ) => assert_eq!(a, b),
            _ => panic!("variant changed in round trip"),
        }
    }
}

#[test]
fn parse_answer_with_unicode_content() {
    let sdp = "v=0 caf\u{e9} \u{2603}".to_string();
    let bytes = encode_signal_response(&SignalResponse::Answer { sdp: sdp.clone() });
    match parse_signal_response(&bytes).unwrap() {
        SignalResponse::Answer { sdp: b } => assert_eq!(b, sdp),
        _ => panic!("wrong variant"),
    }
}

fn answer_sdp(input: &[u8]) -> Option<String> {
    match parse_signal_response(input) {
        Some(SignalResponse::Answer { sdp }) => Some(sdp),
        Some(_) => panic!("wrong variant"),
        None => None,
    }
}

#[test]
fn parse_rejects_malformed() {
    assert!(parse_signal_response(b"").is_none());
    assert!(parse_signal_response(b"{").is_none());
    assert!(parse_signal_response(b"{}").is_none());
    assert!(parse_signal_response(b"{\"type\":\"unknown\",\"x\":\"y\"}").is_none());
    assert!(parse_signal_response(b"{\"type\":\"answer\",\"sdp\":\"x\"}junk").is_none());
    assert!(parse_signal_response(b"{\"type\":\"answer\",\"sdp\":\"x").is_none());
    assert!(parse_signal_response(b"{\"type\":\"answer\",\"sdp\":\"\\q\"}").is_none());
    assert!(parse_signal_response(b"{\"type\":\"answer\",\"sdp\":3}").is_none());
    assert!(parse_signal_response(b"{\"type\":\"answer\"}").is_none());
    assert!(parse_signal_response(b"{\"type\":\"answer\",\"sdp\":\"a\",}").is_none());
    assert!(parse_signal_response(b"{\"type\":\"answer\",\"sdp\":\"a\" \"x\":\"y\"}").is_none());
    // a control byte must be escaped
    let raw_ctl: Vec<u8> = b"{\"type\":\"answer\",\"sdp\":\"a\x01b\"}".to_vec();
    assert!(parse_signal_response(&raw_ctl).is_none());
    // a lone surrogate escape has no scalar value
    assert!(parse_signal_response(b"{\"type\":\"answer\",\"sdp\":\"\\ud83d\"}").is_none());
    assert!(parse_signal_response(b"{\"type\":\"answer\",\"sdp\":\"\\ude00\"}").is_none());
    // the discriminator and the payload must occur once
    assert!(
        parse_signal_response(b"{\"type\":\"answer\",\"sdp\":\"a\",\"type\":\"answer\"}").is_none()
    );
    assert!(
        parse_signal_response(b"{\"type\":\"answer\",\"sdp\":\"a\",\"sdp\":\"b\"}").is_none()
    );
    let bad_utf8: Vec<u8> = b"{\"type\":\"answer\",\"sdp\":\"\xff\"}".to_vec();
    assert!(parse_signal_response(&bad_utf8).is_none());
}

#[test]
fn parse_accepts_whitespace_and_field_order() {
    assert_eq!(
        answer_sdp(b" {\n\t\"type\" : \"answer\" ,\r\n \"sdp\" : \"v=0\" } \n").unwrap(),
        "v=0"
    );
    assert_eq!(answer_sdp(b"{\"sdp\":\"v=0\",\"type\":\"answer\"}").unwrap(), "v=0");
}

#[test]
fn parse_ignores_unknown_fields() {
    let input = b"{\"seq\":17,\"type\":\"answer\",\"extra\":{\"a\":[1,2.5e3,true,null,\"s\"]},\"ok\":false,\"sdp\":\"v=0\",\"note\":\"x\"}";
    assert_eq!(answer_sdp(input).unwrap(), "v=0");
}

#[test]
fn parse_accepts_standard_escapes() {
    assert_eq!(answer_sdp(b"{\"type\":\"answer\",\"sdp\":\"\\u0041\\/\\u001F\"}").unwrap(), "A/\u{1f}");
    // a surrogate pair decodes to one supplementary character
    assert_eq!(
        answer_sdp(b"{\"type\":\"answer\",\"sdp\":\"\\uD83D\\uDE00\"}").unwrap(),
        "\u{1f600}"
    );
    // escaped discriminator and keys still select the variant
    assert_eq!(answer_sdp(b"{\"ty\\u0070e\":\"answer\",\"sdp\":\"v=0\"}").unwrap(), "v=0");
}

#[test]
fn parse_rejects_over_deep_unknown_values() {
    let mut deep = String::from("{\"type\":\"answer\",\"sdp\":\"v=0\",\"x\":");
    for _ in 0..200 {
        deep.push('[');
    }
    for _ in 0..200 {
        deep.push(']');
    }
    deep.push('}');
    assert!(parse_signal_response(deep.as_bytes()).is_none());
}

#[test]
fn parse_agrees_with_independent_producer() {
    let mut obj = serde_json::Map::new();
    obj.insert("type".to_string(), serde_json::Value::String("answer".to_string()));
    obj.insert(
        "sdp".to_string(),
        serde_json::Value::String("v=0\r\na=\"quoted\" \\ caf\u{e9}".to_string()),
    );
    let text = serde_json::to_string(&serde_json::Value::Object(obj)).unwrap();
    assert_eq!(answer_sdp(text.as_bytes()).unwrap(), "v=0\r\na=\"quoted\" \\ caf\u{e9}");
}

#[test]
fn parse_accepts_escaped_control() {
    match parse_signal_response(b"{\"type\":\"answer\",\"sdp\":\"a\\u001fb\\r\\n\"}").unwrap() {
        SignalResponse::Answer { sdp } => assert_eq!(sdp, "a\u{1f}b\r\n"),
        _ => panic!("wrong variant"),
    }
}

#[test]
fn encoded_request_is_valid_json_for_every_variant() {
    let cases = vec![
        SignalRequest::Offer { sdp: "v=0".to_string() },
        SignalRequest::Answer { id: "i".to_string(), sdp: "s".to_string() },
        SignalRequest::CallerIceCandidate { id: "i".to_string(), ice_candidate: "c".to_string() },
        SignalRequest::GetOffer { id: "i".to_string() },
        SignalRequest::PeerIceCandidate { id: "i".to_string(), ice_candidate: "c".to_string() },
    ];
    for m in cases {
        let bytes = encode_signal_request(&m);
        let v: serde_json::Value = serde_json::from_slice(&bytes).unwrap();
        assert!(v.get("type").unwrap().is_string());
    }
}

#[test]
fn encoded_test_matches_independent_parser() {
    let t = Test { sdp: "v=0\r\n".to_string(), kind: "answer".to_string() };
    let bytes = encode_test(&t);
    let v: serde_json::Value = serde_json::from_slice(&bytes).unwrap();
    assert_eq!(v.get("sdp").unwrap().as_str().unwrap(), "v=0\r\n");
    assert_eq!(v.get("type").unwrap().as_str().unwrap(), "answer");
}
