use vstd::prelude::*;
use crate::messages::{MessageModel, SignalingMessage};

verus! {

/// Which side of the offer/answer exchange this context took.
#[derive(Clone, Copy, Debug, PartialEq, Eq, Structural)]
pub enum Role {
    Unknown,
    Offerer,
    Answerer,
}

/// Negotiation progress for one remote peer.
///
/// The offering path runs `Fresh -> LocalOfferPending -> LocalOfferSet`;
/// the answering path runs `Fresh -> RemoteOfferReceived -> LocalAnswerSet`;
/// `Closed` is terminal and reachable from every state.
#[derive(Clone, Copy, Debug, PartialEq, Eq, Structural)]
pub enum NegotiationState {
    Fresh,
    LocalOfferPending,
    LocalOfferSet,
    RemoteOfferReceived,
    LocalAnswerSet,
    Closed,
}

/// The negotiation state machine for a single remote peer. The transport
/// engine's handle itself lives with the surrounding application; this
/// context tracks what has been asked of it and what has been applied.
pub struct NegotiationContext {
    pub peer: String,
    pub state: NegotiationState,
    pub role: Role,
    pub local_description_set: bool,
    pub remote_description_set: bool,
}

impl NegotiationContext {
    /// The description flags and role agree with the state machine position.
    pub open spec fn wf(&self) -> bool {
        match self.state {
            NegotiationState::Fresh => self.role == Role::Unknown
                && !self.local_description_set && !self.remote_description_set,
            NegotiationState::LocalOfferPending => self.role == Role::Unknown
                && !self.local_description_set && !self.remote_description_set,
            NegotiationState::LocalOfferSet => self.role == Role::Offerer
                && self.local_description_set,
            NegotiationState::RemoteOfferReceived => self.role == Role::Answerer
                && !self.local_description_set && self.remote_description_set,
            NegotiationState::LocalAnswerSet => self.role == Role::Answerer
                && self.local_description_set && self.remote_description_set,
            NegotiationState::Closed => true,
        }
    }

    /// Both the local and the remote description have been applied.
    pub open spec fn descriptions_exchanged(&self) -> bool {
        self.local_description_set && self.remote_description_set
    }

    pub fn new(peer: String) -> (c: Self)
        ensures
            c.peer@ == peer@,
            c.state == NegotiationState::Fresh,
            c.role == Role::Unknown,
            !c.local_description_set,
            !c.remote_description_set,
            c.wf(),
    {
        NegotiationContext {
            peer,
            state: NegotiationState::Fresh,
            role: Role::Unknown,
            local_description_set: false,
            remote_description_set: false,
        }
    }

    /// An offer has been requested from the transport engine; the context
    /// waits for the produced description.
    pub fn start_offer(&mut self)
        requires
            old(self).state == NegotiationState::Fresh,
            old(self).wf(),
        ensures
            final(self).state == NegotiationState::LocalOfferPending,
            final(self).peer == old(self).peer,
            final(self).role == old(self).role,
            final(self).local_description_set == old(self).local_description_set,
            final(self).remote_description_set == old(self).remote_description_set,
            final(self).wf(),
    {
        self.state = NegotiationState::LocalOfferPending;
    }

    /// The transport engine produced an offer description and applied it
    /// locally; record that and build the outbound offer message.
    pub fn complete_offer(&mut self, sdp: &str) -> (m: SignalingMessage)
        requires
            old(self).state == NegotiationState::LocalOfferPending,
            old(self).wf(),
        ensures
            final(self).state == NegotiationState::LocalOfferSet,
            final(self).peer == old(self).peer,
            final(self).role == Role::Offerer,
            final(self).local_description_set,
            final(self).remote_description_set == old(self).remote_description_set,
            final(self).wf(),
            m.model() == (MessageModel::Offer { peer: old(self).peer@, sdp: sdp@ }),
    {
        self.state = NegotiationState::LocalOfferSet;
        self.role = Role::Offerer;
        self.local_description_set = true;
        SignalingMessage::Offer { peer: self.peer.clone(), sdp: sdp.to_owned() }
    }

    /// A remote offer was applied as this context's remote description.
    pub fn receive_offer(&mut self)
        requires
            old(self).state == NegotiationState::Fresh,
            old(self).wf(),
        ensures
            final(self).state == NegotiationState::RemoteOfferReceived,
            final(self).peer == old(self).peer,
            final(self).role == Role::Answerer,
            !final(self).local_description_set,
            final(self).remote_description_set,
            final(self).wf(),
    {
        self.state = NegotiationState::RemoteOfferReceived;
        self.role = Role::Answerer;
        self.remote_description_set = true;
    }

    /// The transport engine produced an answer description and applied it
    /// locally; record that and build the outbound answer message.
    pub fn complete_answer(&mut self, sdp: &str) -> (m: SignalingMessage)
        requires
            old(self).state == NegotiationState::RemoteOfferReceived,
            old(self).wf(),
        ensures
            final(self).state == NegotiationState::LocalAnswerSet,
            final(self).peer == old(self).peer,
            final(self).role == Role::Answerer,
            final(self).local_description_set,
            final(self).remote_description_set,
            final(self).wf(),
            m.model() == (MessageModel::Answer { peer: old(self).peer@, sdp: sdp@ }),
    {
        self.state = NegotiationState::LocalAnswerSet;
        self.local_description_set = true;
        SignalingMessage::Answer { peer: self.peer.clone(), sdp: sdp.to_owned() }
    }

    /// A remote answer is being applied to this offering context.
    pub fn apply_answer(&mut self)
        requires
            old(self).state == NegotiationState::LocalOfferSet,
            old(self).wf(),
        ensures
            final(self).state == NegotiationState::LocalOfferSet,
            final(self).peer == old(self).peer,
            final(self).role == old(self).role,
            final(self).local_description_set == old(self).local_description_set,
            final(self).remote_description_set,
            final(self).descriptions_exchanged(),
            final(self).wf(),
    {
        self.remote_description_set = true;
    }

    /// Tear the context down. Idempotent: closing a closed context
    /// changes nothing further.
    pub fn close(&mut self)
        ensures
            final(self).state == NegotiationState::Closed,
            final(self).peer == old(self).peer,
            final(self).role == old(self).role,
            final(self).local_description_set == old(self).local_description_set,
            final(self).remote_description_set == old(self).remote_description_set,
            final(self).wf(),
    {
        self.state = NegotiationState::Closed;
    }

    /// Candidates may be forwarded to the transport engine in every
    /// state but `Closed`.
    pub fn accepts_candidates(&self) -> (r: bool)
        ensures
            r == (self.state != NegotiationState::Closed),
    {
        self.state != NegotiationState::Closed
    }
}

} // verus!
