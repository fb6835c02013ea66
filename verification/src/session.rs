use vstd::prelude::*;
use crate::context::{NegotiationContext, NegotiationState, Role};
use crate::messages::{MessageModel, SignalingMessage, opt_text_view};
use crate::registry::Registry;

verus! {

/// What the caller must do next after a peer joined.
#[derive(Clone, Copy, Debug, PartialEq, Eq, Structural)]
pub enum JoinAction {
    /// Create a transport handle for the peer and ask it for an offer.
    StartOffer,
    /// A context already exists for this identity; nothing to do.
    AlreadyJoined,
}

/// What the caller must do next after a remote offer arrived.
#[derive(Clone, Copy, Debug, PartialEq, Eq, Structural)]
pub enum OfferAction {
    /// Apply the remote offer and ask the transport handle for an answer.
    StartAnswer,
    /// The context is past the state where an offer may be applied.
    Ignored,
}

/// What the caller must do next after a remote answer arrived.
#[derive(Clone, Copy, Debug, PartialEq, Eq, Structural)]
pub enum AnswerAction {
    /// Apply the answer as the remote description of the peer's handle.
    Apply,
    /// No context exists for this identity; the answer is stale.
    NoContext,
    /// The context never sent an offer, so the answer is misdirected.
    Ignored,
}

/// What the caller must do next after a remote candidate arrived.
#[derive(Clone, Copy, Debug, PartialEq, Eq, Structural)]
pub enum CandidateAction {
    /// Hand the candidate to the peer's transport handle.
    Forward,
    /// No context exists for this identity; the candidate is stale.
    NoContext,
}

/// A network path descriptor the transport engine discovered locally.
#[derive(Debug, Clone, PartialEq, Eq)]
pub struct DiscoveredCandidate {
    pub candidate: String,
    pub sdp_mid: Option<String>,
    pub sdp_mline_index: Option<u16>,
}

/// The session orchestrator: the single entry point that receives
/// lifecycle events, drives the registry and the per-peer negotiation
/// contexts, and yields the outbound signaling messages.
pub struct Session {
    pub registry: Registry,
    pub local_media: bool,
}

impl Session {
    pub open spec fn wf(&self) -> bool {
        self.registry.wf()
    }

    /// A context is live for this identity.
    pub open spec fn has_peer(&self, id: Seq<char>) -> bool {
        self.registry.has_peer(id)
    }

    /// The live context for this identity.
    pub open spec fn ctx(&self, id: Seq<char>) -> NegotiationContext {
        self.registry.ctx_of(id)
    }

    /// How many contexts are live.
    pub open spec fn peer_count(&self) -> nat {
        self.registry.count()
    }

    pub fn new() -> (s: Self)
        ensures
            s.wf(),
            s.peer_count() == 0,
            forall|id: Seq<char>| !s.has_peer(id),
            !s.local_media,
    {
        Session { registry: Registry::new(), local_media: false }
    }

    /// Local capture is available; contexts created from now on should
    /// have its tracks attached. Replacing an earlier handle is allowed.
    pub fn local_media_ready(&mut self)
        requires
            old(self).wf(),
        ensures
            final(self).wf(),
            final(self).local_media,
            final(self).registry == old(self).registry,
    {
        self.local_media = true;
    }

    /// A new participant appeared. If the identity is unknown, a fresh
    /// context is created and an offer must be produced for it; if a
    /// context already exists the call changes nothing.
    pub fn peer_joined(&mut self, peer: &str) -> (a: JoinAction)
        requires
            old(self).wf(),
        ensures
            final(self).wf(),
            final(self).local_media == old(self).local_media,
            old(self).has_peer(peer@) ==> a == JoinAction::AlreadyJoined && *final(self) == *old(self),
            !old(self).has_peer(peer@) ==> a == JoinAction::StartOffer && final(self).has_peer(peer@) && final(self).ctx(peer@).state == NegotiationState::LocalOfferPending && final(self).ctx(peer@).peer@ == peer@ && final(self).peer_count() == old(self).peer_count() + 1,
            forall|id2: Seq<char>|
                id2 != peer@ ==> final(self).has_peer(id2) == old(self).has_peer(id2),
            forall|id2: Seq<char>|
                id2 != peer@ && old(self).has_peer(id2) ==> final(self).ctx(id2) == old(self).ctx(id2),
    {
        match self.registry.lookup(peer) {
            Option::Some(_) => JoinAction::AlreadyJoined,
            Option::None => {
                let mut c = NegotiationContext::new(peer.to_owned());
                c.start_offer();
                self.registry.insert_new(c);
                JoinAction::StartOffer
            },
        }
    }

    /// The transport engine produced and applied the local offer for
    /// this peer; build the outbound offer message.
    pub fn offer_produced(&mut self, peer: &str, sdp: &str) -> (r: Option<SignalingMessage>)
        requires
            old(self).wf(),
        ensures
            final(self).wf(),
            final(self).local_media == old(self).local_media,
            r is Some <==> old(self).has_peer(peer@) && old(self).ctx(peer@).state
                == NegotiationState::LocalOfferPending,
            r is None ==> *final(self) == *old(self),
            r matches Some(m) ==> m.model() == (MessageModel::Offer { peer: peer@, sdp: sdp@ })
                && final(self).has_peer(peer@) && final(self).ctx(peer@).state
                == NegotiationState::LocalOfferSet && final(self).ctx(peer@).role == Role::Offerer
                && final(self).ctx(peer@).local_description_set && final(self).ctx(peer@).peer@
                == peer@,
            forall|id2: Seq<char>|
                final(self).has_peer(id2) == old(self).has_peer(id2),
            forall|id2: Seq<char>|
                id2 != peer@ && old(self).has_peer(id2) ==> final(self).ctx(id2) == old(self).ctx(id2),
    {
        match self.registry.position_of(peer) {
            Option::Some(i) => {
                let mut c = self.registry.context_at(i);
                if c.state == NegotiationState::LocalOfferPending {
                    let m = c.complete_offer(sdp);
                    self.registry.replace_at(i, c);
                    Option::Some(m)
                } else {
                    Option::None
                }
            },
            Option::None => Option::None,
        }
    }

    /// A remote offer arrived. An unknown identity gets a fresh context
    /// that records the remote description; a known context still in its
    /// starting state does the same; any further state means the offer
    /// cannot be applied and is ignored.
    pub fn offer_received(&mut self, peer: &str) -> (a: OfferAction)
        requires
            old(self).wf(),
        ensures
            final(self).wf(),
            final(self).local_media == old(self).local_media,
            a == OfferAction::StartAnswer <==> !old(self).has_peer(peer@) || old(self).ctx(peer@).state == NegotiationState::Fresh,
            a == OfferAction::Ignored ==> *final(self) == *old(self),
            a == OfferAction::StartAnswer ==> final(self).has_peer(peer@) && final(self).ctx(peer@).state == NegotiationState::RemoteOfferReceived && final(self).ctx(peer@).role
                == Role::Answerer && final(self).ctx(peer@).remote_description_set && final(self).ctx(peer@).peer@ == peer@,
            forall|id2: Seq<char>|
                id2 != peer@ ==> final(self).has_peer(id2) == old(self).has_peer(id2),
            forall|id2: Seq<char>|
                id2 != peer@ && old(self).has_peer(id2) ==> final(self).ctx(id2) == old(self).ctx(id2),
    {
        match self.registry.position_of(peer) {
            Option::Some(i) => {
                let mut c = self.registry.context_at(i);
                if c.state == NegotiationState::Fresh {
                    c.receive_offer();
                    self.registry.replace_at(i, c);
                    OfferAction::StartAnswer
                } else {
                    OfferAction::Ignored
                }
            },
            Option::None => {
                let mut c = NegotiationContext::new(peer.to_owned());
                c.receive_offer();
                self.registry.insert_new(c);
                OfferAction::StartAnswer
            },
        }
    }

    /// The transport engine produced and applied the local answer for
    /// this peer; build the outbound answer message.
    pub fn answer_produced(&mut self, peer: &str, sdp: &str) -> (r: Option<SignalingMessage>)
        requires
            old(self).wf(),
        ensures
            final(self).wf(),
            final(self).local_media == old(self).local_media,
            r is Some <==> old(self).has_peer(peer@) && old(self).ctx(peer@).state
                == NegotiationState::RemoteOfferReceived,
            r is None ==> *final(self) == *old(self),
            r matches Some(m) ==> m.model() == (MessageModel::Answer { peer: peer@, sdp: sdp@ })
                && final(self).has_peer(peer@) && final(self).ctx(peer@).state
                == NegotiationState::LocalAnswerSet && final(self).ctx(peer@).descriptions_exchanged() && final(self).ctx(peer@).peer@ == peer@,
            forall|id2: Seq<char>|
                final(self).has_peer(id2) == old(self).has_peer(id2),
            forall|id2: Seq<char>|
                id2 != peer@ && old(self).has_peer(id2) ==> final(self).ctx(id2) == old(self).ctx(id2),
    {
        match self.registry.position_of(peer) {
            Option::Some(i) => {
                let mut c = self.registry.context_at(i);
                if c.state == NegotiationState::RemoteOfferReceived {
                    let m = c.complete_answer(sdp);
                    self.registry.replace_at(i, c);
                    Option::Some(m)
                } else {
                    Option::None
                }
            },
            Option::None => Option::None,
        }
    }

    /// A remote answer arrived. Unknown identities and contexts that
    /// never sent an offer leave the session untouched; only a context
    /// whose local offer is set applies the answer.
    pub fn answer_received(&mut self, peer: &str) -> (a: AnswerAction)
        requires
            old(self).wf(),
        ensures
            final(self).wf(),
            final(self).local_media == old(self).local_media,
            a == AnswerAction::NoContext <==> !old(self).has_peer(peer@),
            a == AnswerAction::Apply <==> old(self).has_peer(peer@) && old(self).ctx(peer@).state
                == NegotiationState::LocalOfferSet,
            a != AnswerAction::Apply ==> *final(self) == *old(self),
            a == AnswerAction::Apply ==> final(self).has_peer(peer@) && final(self).ctx(peer@).state == NegotiationState::LocalOfferSet && final(self).ctx(peer@).descriptions_exchanged() && final(self).ctx(peer@).peer@ == peer@,
            forall|id2: Seq<char>|
                final(self).has_peer(id2) == old(self).has_peer(id2),
            forall|id2: Seq<char>|
                id2 != peer@ && old(self).has_peer(id2) ==> final(self).ctx(id2) == old(self).ctx(id2),
    {
        match self.registry.position_of(peer) {
            Option::Some(i) => {
                let mut c = self.registry.context_at(i);
                if c.state == NegotiationState::LocalOfferSet {
                    c.apply_answer();
                    self.registry.replace_at(i, c);
                    AnswerAction::Apply
                } else {
                    AnswerAction::Ignored
                }
            },
            Option::None => AnswerAction::NoContext,
        }
    }

    /// A remote candidate arrived. It never changes negotiation state:
    /// either it is forwarded to the peer's transport handle or, for an
    /// unknown identity, silently dropped.
    pub fn candidate_received(&mut self, peer: &str) -> (a: CandidateAction)
        requires
            old(self).wf(),
        ensures
            *final(self) == *old(self),
            a == CandidateAction::Forward <==> old(self).has_peer(peer@),
            a == CandidateAction::NoContext <==> !old(self).has_peer(peer@),
    {
        match self.registry.lookup(peer) {
            Option::Some(_) => CandidateAction::Forward,
            Option::None => CandidateAction::NoContext,
        }
    }

    /// A participant left: remove its context and hand it back, closed,
    /// so the caller can tear the transport handle down.
    pub fn peer_left(&mut self, peer: &str) -> (r: Option<NegotiationContext>)
        requires
            old(self).wf(),
        ensures
            final(self).wf(),
            final(self).local_media == old(self).local_media,
            !final(self).has_peer(peer@),
            r is Some <==> old(self).has_peer(peer@),
            r is None ==> *final(self) == *old(self),
            r matches Some(c) ==> c.state == NegotiationState::Closed && c.peer == old(self).ctx(peer@).peer && final(self).peer_count() + 1 == old(self).peer_count(),
            forall|id2: Seq<char>|
                id2 != peer@ ==> final(self).has_peer(id2) == old(self).has_peer(id2),
            forall|id2: Seq<char>|
                id2 != peer@ && old(self).has_peer(id2) ==> final(self).ctx(id2) == old(self).ctx(id2),
    {
        match self.registry.remove(peer) {
            Option::Some(mut c) => {
                c.close();
                Option::Some(c)
            },
            Option::None => Option::None,
        }
    }

    /// The transport engine rejected a description or candidate for this
    /// peer: its negotiation cannot proceed, so the context is removed
    /// and handed back closed. Other contexts are untouched.
    pub fn negotiation_failed(&mut self, peer: &str) -> (r: Option<NegotiationContext>)
        requires
            old(self).wf(),
        ensures
            final(self).wf(),
            final(self).local_media == old(self).local_media,
            !final(self).has_peer(peer@),
            r is Some <==> old(self).has_peer(peer@),
            r is None ==> *final(self) == *old(self),
            r matches Some(c) ==> c.state == NegotiationState::Closed,
            forall|id2: Seq<char>|
                id2 != peer@ ==> final(self).has_peer(id2) == old(self).has_peer(id2),
            forall|id2: Seq<char>|
                id2 != peer@ && old(self).has_peer(id2) ==> final(self).ctx(id2) == old(self).ctx(id2),
    {
        self.peer_left(peer)
    }

    /// End the session: every context is removed and handed back closed,
    /// and the local media handle is released. Afterwards every per-peer
    /// operation finds nothing to act on.
    pub fn shutdown(&mut self) -> (r: Vec<NegotiationContext>)
        requires
            old(self).wf(),
        ensures
            final(self).wf(),
            !final(self).local_media,
            final(self).peer_count() == 0,
            forall|id2: Seq<char>| !final(self).has_peer(id2),
            r@.len() == old(self).peer_count(),
            forall|k: int|
                0 <= k < r@.len() ==> (#[trigger] r@[k]).state == NegotiationState::Closed
                    && r@[k].peer == old(self).registry.contexts@[k].peer,
    {
        self.local_media = false;
        let mut drained = self.registry.drain_all();
        let ghost orig = drained@;
        let mut out: Vec<NegotiationContext> = Vec::new();
        while drained.len() > 0
            invariant
                out@.len() + drained@.len() == orig.len(),
                drained@ == orig.skip(out@.len() as int),
                forall|k: int|
                    0 <= k < out@.len() ==> (#[trigger] out@[k]).state == NegotiationState::Closed
                        && out@[k].peer == orig[k].peer,
            decreases drained@.len(),
        {
            let mut c = drained.remove(0);
            c.close();
            out.push(c);
            proof {
                assert(drained@ =~= orig.skip(out@.len() as int));
            }
        }
        out
    }
}

/// The transport engine discovered a local candidate for a peer: wrap it
/// as an outbound candidate message. The end-of-gathering signal (no
/// candidate) produces no message.
pub fn local_candidate_discovered(peer: &str, discovered: Option<DiscoveredCandidate>) -> (r:
    Option<SignalingMessage>)
    ensures
        r is Some <==> discovered is Some,
        discovered matches Some(d) ==> r matches Some(m) && m.model() == (
        MessageModel::IceCandidate {
            peer: peer@,
            candidate: d.candidate@,
            sdp_mid: opt_text_view(d.sdp_mid),
            sdp_mline_index: d.sdp_mline_index,
        }),
{
    match discovered {
        Option::Some(d) => Option::Some(
            SignalingMessage::IceCandidate {
                peer: peer.to_owned(),
                candidate: d.candidate,
                sdp_mid: d.sdp_mid,
                sdp_mline_index: d.sdp_mline_index,
            },
        ),
        Option::None => Option::None,
    }
}


/// Law: a well-formed session holds at most one context per peer
/// identity — two positions keyed by the same identity coincide.
pub proof fn lemma_context_unique(s: &Session, i: int, j: int)
    requires
        s.wf(),
        0 <= i < s.registry.contexts@.len(),
        0 <= j < s.registry.contexts@.len(),
        s.registry.contexts@[i].peer@ == s.registry.contexts@[j].peer@,
    ensures
        i == j,
{
    if i < j {
        assert(s.registry.contexts@[i].peer@ != s.registry.contexts@[j].peer@);
    } else if j < i {
        assert(s.registry.contexts@[j].peer@ != s.registry.contexts@[i].peer@);
    }
}

} // verus!
