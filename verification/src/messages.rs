use vstd::prelude::*;

verus! {

/// A character the wire codec can carry inside a string field: any
/// non-control character, or one of the three text controls that
/// session descriptions use (newline, carriage return, tab).
pub open spec fn wf_char(c: char) -> bool {
    (c as u32) >= 32 || c == '\n' || c == '\r' || c == '\t'
}

/// Every character of the text is one the codec can carry.
pub open spec fn wf_text(s: Seq<char>) -> bool {
    forall|i: int| 0 <= i < s.len() ==> wf_char(#[trigger] s[i])
}

/// Mathematical model of a signaling message: each text field as a
/// sequence of characters.
pub ghost enum MessageModel {
    Offer { peer: Seq<char>, sdp: Seq<char> },
    Answer { peer: Seq<char>, sdp: Seq<char> },
    IceCandidate {
        peer: Seq<char>,
        candidate: Seq<char>,
        sdp_mid: Option<Seq<char>>,
        sdp_mline_index: Option<u16>,
    },
}

impl MessageModel {
    /// All text fields of the message are codec-representable.
    pub open spec fn wf(&self) -> bool {
        match *self {
            MessageModel::Offer { peer, sdp } => wf_text(peer) && wf_text(sdp),
            MessageModel::Answer { peer, sdp } => wf_text(peer) && wf_text(sdp),
            MessageModel::IceCandidate { peer, candidate, sdp_mid, sdp_mline_index } => {
                wf_text(peer) && wf_text(candidate) && match sdp_mid {
                    Option::Some(m) => wf_text(m),
                    Option::None => true,
                }
            },
        }
    }
}

/// One unit of the signaling wire protocol: an offer or answer carrying
/// a session description, or a connectivity candidate, each tagged with
/// the remote peer it concerns.
#[derive(Debug, Clone, PartialEq, Eq)]
pub enum SignalingMessage {
    Offer { peer: String, sdp: String },
    Answer { peer: String, sdp: String },
    IceCandidate {
        peer: String,
        candidate: String,
        sdp_mid: Option<String>,
        sdp_mline_index: Option<u16>,
    },
}

pub open spec fn opt_text_view(o: Option<String>) -> Option<Seq<char>> {
    match o {
        Option::Some(s) => Option::Some(s@),
        Option::None => Option::None,
    }
}

impl SignalingMessage {
    /// The message as its mathematical model.
    pub open spec fn model(&self) -> MessageModel {
        match *self {
            SignalingMessage::Offer { peer, sdp } => MessageModel::Offer {
                peer: peer@,
                sdp: sdp@,
            },
            SignalingMessage::Answer { peer, sdp } => MessageModel::Answer {
                peer: peer@,
                sdp: sdp@,
            },
            SignalingMessage::IceCandidate { peer, candidate, sdp_mid, sdp_mline_index } => {
                MessageModel::IceCandidate {
                    peer: peer@,
                    candidate: candidate@,
                    sdp_mid: opt_text_view(sdp_mid),
                    sdp_mline_index: sdp_mline_index,
                }
            },
        }
    }

    /// A message is valid when all its text fields are codec-representable.
    pub open spec fn valid(&self) -> bool {
        self.model().wf()
    }
}

} // verus!
