//! Negotiation-session tests: the offer/answer handshake, candidate
//! buffering, and the answer-applied-exactly-once behaviour.

use screen_stream::negotiation::{NegotiationAction, NegotiationSession, NegotiationState};
use screen_stream::signal::SignalResponse;
use screen_stream::wire::encode_signal_response;

fn wire_text(m: &SignalResponse) -> String {
    String::from_utf8(encode_signal_response(m)).unwrap()
}

#[test]
fn offer_then_answer_reaches_ready() {
    let mut s = NegotiationSession::new("asdf".to_string());
    assert_eq!(s.state(), NegotiationState::Connecting);
    let actions = s.send_offer("v=0 offer".to_string());
    assert_eq!(actions.len(), 1);
    assert!(matches!(&actions[0], NegotiationAction::SendOffer { sdp } if sdp == "v=0 offer"));
    assert_eq!(s.state(), NegotiationState::OfferSent);

    let answer = wire_text(&SignalResponse::Answer { sdp: "v=0 answer".to_string() });
    let actions = s.handle_incoming(&answer);
    assert_eq!(actions.len(), 1);
    assert!(
        matches!(&actions[0], NegotiationAction::ApplyRemoteDescription { sdp } if sdp == "v=0 answer")
    );
    assert_eq!(s.state(), NegotiationState::AnswerApplied);

    s.on_remote_description_result(true);
    assert_eq!(s.state(), NegotiationState::Ready);
    assert!(s.sink_ready());
}

#[test]
fn second_answer_is_ignored_not_reapplied() {
    let mut s = NegotiationSession::new("asdf".to_string());
    s.send_offer("o".to_string());
    let answer = wire_text(&SignalResponse::Answer { sdp: "a1".to_string() });
    let first = s.handle_incoming(&answer);
    assert_eq!(first.len(), 1);
    s.on_remote_description_result(true);
    assert_eq!(s.state(), NegotiationState::Ready);

    let again = wire_text(&SignalResponse::Answer { sdp: "a2".to_string() });
    let actions = s.handle_incoming(&again);
    assert!(actions.is_empty());
    assert_eq!(s.state(), NegotiationState::Ready);
}

#[test]
fn candidates_before_answer_are_buffered_then_applied_in_order() {
    let mut s = NegotiationSession::new("asdf".to_string());
    s.send_offer("o".to_string());

    let c1 = wire_text(&SignalResponse::IceCandidate { ice_candidate: "cand-1".to_string() });
    let c2 = wire_text(&SignalResponse::IceCandidate { ice_candidate: "cand-2".to_string() });
    assert!(s.handle_incoming(&c1).is_empty());
    assert!(s.handle_incoming(&c2).is_empty());
    assert_eq!(s.state(), NegotiationState::OfferSent);

    let answer = wire_text(&SignalResponse::Answer { sdp: "a".to_string() });
    let actions = s.handle_incoming(&answer);
    assert_eq!(actions.len(), 3);
    assert!(matches!(&actions[0], NegotiationAction::ApplyRemoteDescription { sdp } if sdp == "a"));
    assert!(
        matches!(&actions[1], NegotiationAction::ApplyCandidate { ice_candidate } if ice_candidate == "cand-1")
    );
    assert!(
        matches!(&actions[2], NegotiationAction::ApplyCandidate { ice_candidate } if ice_candidate == "cand-2")
    );
}

#[test]
fn candidates_after_answer_are_applied_directly() {
    let mut s = NegotiationSession::new("asdf".to_string());
    s.send_offer("o".to_string());
    let answer = wire_text(&SignalResponse::Answer { sdp: "a".to_string() });
    s.handle_incoming(&answer);
    s.on_remote_description_result(true);

    let c = wire_text(&SignalResponse::IceCandidate { ice_candidate: "late".to_string() });
    let actions = s.handle_incoming(&c);
    assert_eq!(actions.len(), 1);
    assert!(
        matches!(&actions[0], NegotiationAction::ApplyCandidate { ice_candidate } if ice_candidate == "late")
    );
    assert!(s.sink_ready());
}

#[test]
fn signaling_exchange_either_candidate_order_reaches_ready() {
    let answer = wire_text(&SignalResponse::Answer { sdp: "v=0 answer".to_string() });
    let c1 = wire_text(&SignalResponse::IceCandidate { ice_candidate: "c1".to_string() });
    let c2 = wire_text(&SignalResponse::IceCandidate { ice_candidate: "c2".to_string() });

    let orders: Vec<Vec<&String>> = vec![
        vec![&c1, &c2, &answer],
        vec![&answer, &c1, &c2],
        vec![&c1, &answer, &c2],
    ];
    for order in orders {
        let mut s = NegotiationSession::new("asdf".to_string());
        s.send_offer("v=0 offer".to_string());
        let mut applied: Vec<String> = Vec::new();
        for msg in order {
            for action in s.handle_incoming(msg) {
                match action {
                    NegotiationAction::ApplyRemoteDescription { sdp: _ } => {
                        s.on_remote_description_result(true);
                    },
                    NegotiationAction::ApplyCandidate { ice_candidate } => {
                        applied.push(ice_candidate);
                    },
                    _ => {},
                }
            }
        }
        assert_eq!(s.state(), NegotiationState::Ready);
        assert!(s.sink_ready());
        assert_eq!(applied, vec!["c1".to_string(), "c2".to_string()]);
    }
}

#[test]
fn parse_failure_fails_the_session() {
    let mut s = NegotiationSession::new("asdf".to_string());
    s.send_offer("o".to_string());
    let actions = s.handle_incoming("not json at all");
    assert!(actions.is_empty());
    assert_eq!(s.state(), NegotiationState::Failed);
}

#[test]
fn unexpected_offer_fails_the_session() {
    let mut s = NegotiationSession::new("asdf".to_string());
    s.send_offer("o".to_string());
    let offer = wire_text(&SignalResponse::Offer { sdp: "o2".to_string() });
    s.handle_incoming(&offer);
    assert_eq!(s.state(), NegotiationState::Failed);
}

#[test]
fn answer_before_offer_fails_the_session() {
    let mut s = NegotiationSession::new("asdf".to_string());
    let answer = wire_text(&SignalResponse::Answer { sdp: "a".to_string() });
    s.handle_incoming(&answer);
    assert_eq!(s.state(), NegotiationState::Failed);
}

#[test]
fn session_message_updates_the_id() {
    let mut s = NegotiationSession::new("asdf".to_string());
    let session = wire_text(&SignalResponse::Session { id: "srv-7".to_string() });
    assert!(s.handle_incoming(&session).is_empty());
    let action = s.local_candidate("candidate-json".to_string());
    match action {
        NegotiationAction::SendCandidate { id, ice_candidate } => {
            assert_eq!(id, "srv-7");
            assert_eq!(ice_candidate, "candidate-json");
        },
        _ => panic!("expected a candidate send"),
    }
}

#[test]
fn rejected_remote_description_fails_the_session() {
    let mut s = NegotiationSession::new("asdf".to_string());
    s.send_offer("o".to_string());
    let answer = wire_text(&SignalResponse::Answer { sdp: "a".to_string() });
    s.handle_incoming(&answer);
    s.on_remote_description_result(false);
    assert_eq!(s.state(), NegotiationState::Failed);
    assert!(!s.sink_ready());
}
