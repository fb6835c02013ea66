use webrtc_signaling::codec::{decode, encode};
use webrtc_signaling::context::NegotiationState;
use webrtc_signaling::messages::SignalingMessage;
use webrtc_signaling::session::{
    local_candidate_discovered, AnswerAction, CandidateAction, DiscoveredCandidate, JoinAction,
    OfferAction, Session,
};

#[test]
fn join_creates_exactly_one_context() {
    let mut s = Session::new();
    assert_eq!(s.peer_joined("A"), JoinAction::StartOffer);
    assert_eq!(s.registry.contexts.len(), 1);
    assert_eq!(s.peer_joined("A"), JoinAction::AlreadyJoined);
    assert_eq!(s.registry.contexts.len(), 1);
}

#[test]
fn offer_produced_builds_the_offer_message() {
    let mut s = Session::new();
    s.peer_joined("A");
    let m = s.offer_produced("A", "sdp-one").unwrap();
    assert_eq!(
        m,
        SignalingMessage::Offer { peer: "A".to_string(), sdp: "sdp-one".to_string() }
    );
    let c = s.registry.lookup("A").unwrap();
    assert_eq!(c.state, NegotiationState::LocalOfferSet);
    assert!(c.local_description_set);
    assert!(s.offer_produced("A", "sdp-two").is_none());
}

#[test]
fn answer_after_incoming_offer_is_ignored() {
    let mut s = Session::new();
    assert_eq!(s.offer_received("B"), OfferAction::StartAnswer);
    let m = s.answer_produced("B", "sdp-answer").unwrap();
    assert_eq!(
        m,
        SignalingMessage::Answer { peer: "B".to_string(), sdp: "sdp-answer".to_string() }
    );
    assert_eq!(s.answer_received("B"), AnswerAction::Ignored);
    let c = s.registry.lookup("B").unwrap();
    assert_eq!(c.state, NegotiationState::LocalAnswerSet);
}

#[test]
fn answer_before_offer_is_set_is_ignored() {
    let mut s = Session::new();
    s.peer_joined("C");
    assert_eq!(s.answer_received("C"), AnswerAction::Ignored);
    let c = s.registry.lookup("C").unwrap();
    assert_eq!(c.state, NegotiationState::LocalOfferPending);
    assert!(!c.remote_description_set);
}

#[test]
fn answer_for_unknown_peer_is_a_noop() {
    let mut s = Session::new();
    s.peer_joined("A");
    let before = s.registry.contexts.len();
    assert_eq!(s.answer_received("X"), AnswerAction::NoContext);
    assert_eq!(s.registry.contexts.len(), before);
    assert!(s.registry.lookup("X").is_none());
}

#[test]
fn leave_removes_the_context_and_candidates_become_noops() {
    let mut s = Session::new();
    s.peer_joined("A");
    s.offer_produced("A", "sdp");
    let closed = s.peer_left("A").unwrap();
    assert_eq!(closed.state, NegotiationState::Closed);
    assert!(s.registry.lookup("A").is_none());
    assert_eq!(s.candidate_received("A"), CandidateAction::NoContext);
    assert!(s.peer_left("A").is_none());
}

#[test]
fn candidate_for_live_peer_is_forwarded() {
    let mut s = Session::new();
    s.offer_received("B");
    assert_eq!(s.candidate_received("B"), CandidateAction::Forward);
}

#[test]
fn negotiation_failure_closes_only_that_peer() {
    let mut s = Session::new();
    s.peer_joined("A");
    s.peer_joined("B");
    let closed = s.negotiation_failed("A").unwrap();
    assert_eq!(closed.state, NegotiationState::Closed);
    assert!(s.registry.lookup("A").is_none());
    assert!(s.registry.lookup("B").is_some());
}

#[test]
fn end_to_end_offer_answer_exchange() {
    let mut caller = Session::new();
    let mut callee = Session::new();

    assert_eq!(caller.peer_joined("A"), JoinAction::StartOffer);
    let offer_msg = caller.offer_produced("A", "sdp-one").unwrap();
    let wire = encode(&offer_msg).unwrap();

    let received = decode(&wire).unwrap();
    let (peer, sdp) = match received {
        SignalingMessage::Offer { peer, sdp } => (peer, sdp),
        other => panic!("expected an offer, got {:?}", other),
    };
    assert_eq!(peer, "A");
    assert_eq!(sdp, "sdp-one");
    assert_eq!(callee.offer_received(&peer), OfferAction::StartAnswer);
    let answer_msg = callee.answer_produced(&peer, "sdp-two").unwrap();
    let wire2 = encode(&answer_msg).unwrap();

    let received2 = decode(&wire2).unwrap();
    let (peer2, sdp2) = match received2 {
        SignalingMessage::Answer { peer, sdp } => (peer, sdp),
        other => panic!("expected an answer, got {:?}", other),
    };
    assert_eq!(peer2, "A");
    assert_eq!(sdp2, "sdp-two");
    assert_eq!(caller.answer_received(&peer2), AnswerAction::Apply);

    let caller_ctx = caller.registry.lookup("A").unwrap();
    assert!(caller_ctx.local_description_set && caller_ctx.remote_description_set);
    let callee_ctx = callee.registry.lookup("A").unwrap();
    assert!(callee_ctx.local_description_set && callee_ctx.remote_description_set);
}

#[test]
fn shutdown_empties_the_registry_and_releases_media() {
    let mut s = Session::new();
    s.local_media_ready();
    assert!(s.local_media);
    s.peer_joined("A");
    s.offer_received("B");
    let closed = s.shutdown();
    assert_eq!(closed.len(), 2);
    assert!(closed.iter().all(|c| c.state == NegotiationState::Closed));
    assert_eq!(s.registry.contexts.len(), 0);
    assert!(!s.local_media);
    assert_eq!(s.answer_received("A"), AnswerAction::NoContext);
    assert_eq!(s.candidate_received("B"), CandidateAction::NoContext);
    assert!(s.peer_left("A").is_none());
}

#[test]
fn discovered_candidate_becomes_a_message() {
    let d = DiscoveredCandidate {
        candidate: "candidate:1".to_string(),
        sdp_mid: Some("0".to_string()),
        sdp_mline_index: Some(0),
    };
    let m = local_candidate_discovered("A", Some(d)).unwrap();
    assert_eq!(
        m,
        SignalingMessage::IceCandidate {
            peer: "A".to_string(),
            candidate: "candidate:1".to_string(),
            sdp_mid: Some("0".to_string()),
            sdp_mline_index: Some(0),
        }
    );
}

#[test]
fn end_of_gathering_produces_no_message() {
    assert!(local_candidate_discovered("A", None).is_none());
}
