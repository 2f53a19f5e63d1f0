//! The messages that peers exchange through the relay, and the routing
//! policy that says who receives each kind of message.

use vstd::prelude::*;

verus! {

/// The part a connection plays in a session.
#[derive(Clone, Copy, Debug, PartialEq, Eq, Structural)]
pub enum Role {
    /// Originates the offer and the media.
    Sharer,
    /// Originates the answer and consumes the media.
    Viewer,
}

/// The kind of a message, without its payload.
#[derive(Clone, Copy, Debug, PartialEq, Eq, Structural)]
pub enum MessageKind {
    Join,
    Offer,
    Answer,
    IceCandidate,
    Error,
    ViewerJoined,
    Joined,
}

/// Who receives a relayed message.
#[derive(Clone, Copy, Debug, PartialEq, Eq, Structural)]
pub enum Destination {
    /// Every viewer attached to the session.
    Viewers,
    /// The session's sharer.
    Sharer,
    /// The message is not relayed.
    Nobody,
}

/// A message on the wire. The negotiation payloads are opaque text and are
/// passed on unchanged.
#[derive(Debug)]
pub enum Message {
    Join { code: String, role: Role },
    Offer { code: String, sdp: String, sdp_type: String },
    Answer { code: String, sdp: String, sdp_type: String },
    IceCandidate {
        code: String,
        candidate: String,
        sdp_mid: Option<String>,
        sdp_m_line_index: Option<u32>,
    },
    Error { message: String },
    ViewerJoined { code: String },
    Joined { code: String, role: Role },
}

/// What a message says: its kind and its payload as sequences of characters.
pub ghost enum MessageView {
    Join { code: Seq<char>, role: Role },
    Offer { code: Seq<char>, sdp: Seq<char>, sdp_type: Seq<char> },
    Answer { code: Seq<char>, sdp: Seq<char>, sdp_type: Seq<char> },
    IceCandidate {
        code: Seq<char>,
        candidate: Seq<char>,
        sdp_mid: Option<Seq<char>>,
        sdp_m_line_index: Option<u32>,
    },
    Error { message: Seq<char> },
    ViewerJoined { code: Seq<char> },
    Joined { code: Seq<char>, role: Role },
}

impl MessageView {
    /// The kind of the message.
    pub open spec fn kind(self) -> MessageKind {
        match self {
            MessageView::Join { .. } => MessageKind::Join,
            MessageView::Offer { .. } => MessageKind::Offer,
            MessageView::Answer { .. } => MessageKind::Answer,
            MessageView::IceCandidate { .. } => MessageKind::IceCandidate,
            MessageView::Error { .. } => MessageKind::Error,
            MessageView::ViewerJoined { .. } => MessageKind::ViewerJoined,
            MessageView::Joined { .. } => MessageKind::Joined,
        }
    }

    /// The session code the message carries; an error carries none.
    pub open spec fn code(self) -> Option<Seq<char>> {
        match self {
            MessageView::Join { code, .. } => Some(code),
            MessageView::Offer { code, .. } => Some(code),
            MessageView::Answer { code, .. } => Some(code),
            MessageView::IceCandidate { code, .. } => Some(code),
            MessageView::Error { .. } => None,
            MessageView::ViewerJoined { code } => Some(code),
            MessageView::Joined { code, .. } => Some(code),
        }
    }
}

/// The view of an optional string.
pub open spec fn opt_text(s: Option<String>) -> Option<Seq<char>> {
    match s {
        Some(t) => Some(t@),
        None => None,
    }
}

impl View for Message {
    type V = MessageView;

    open spec fn view(&self) -> MessageView {
        match *self {
            Message::Join { code, role } => MessageView::Join { code: code@, role },
            Message::Offer { code, sdp, sdp_type } => MessageView::Offer {
                code: code@,
                sdp: sdp@,
                sdp_type: sdp_type@,
            },
            Message::Answer { code, sdp, sdp_type } => MessageView::Answer {
                code: code@,
                sdp: sdp@,
                sdp_type: sdp_type@,
            },
            Message::IceCandidate { code, candidate, sdp_mid, sdp_m_line_index } => {
                MessageView::IceCandidate {
                    code: code@,
                    candidate: candidate@,
                    sdp_mid: opt_text(sdp_mid),
                    sdp_m_line_index,
                }
            },
            Message::Error { message } => MessageView::Error { message: message@ },
            Message::ViewerJoined { code } => MessageView::ViewerJoined { code: code@ },
            Message::Joined { code, role } => MessageView::Joined { code: code@, role },
        }
    }
}

/// The views of a queue of messages, in order.
pub open spec fn views(queue: Seq<Message>) -> Seq<MessageView> {
    queue.map_values(|m: Message| m@)
}

/// A copy of an optional string.
pub fn clone_opt_text(s: &Option<String>) -> (r: Option<String>)
    ensures
        r == *s,
{
    match s {
        Some(t) => Some(t.clone()),
        None => None,
    }
}

impl Clone for Message {
    /// A copy with the same kind and the same payload, character for
    /// character.
    fn clone(&self) -> (r: Self)
        ensures
            r == *self,
    {
        match self {
            Message::Join { code, role } => Message::Join { code: code.clone(), role: *role },
            Message::Offer { code, sdp, sdp_type } => Message::Offer {
                code: code.clone(),
                sdp: sdp.clone(),
                sdp_type: sdp_type.clone(),
            },
            Message::Answer { code, sdp, sdp_type } => Message::Answer {
                code: code.clone(),
                sdp: sdp.clone(),
                sdp_type: sdp_type.clone(),
            },
            Message::IceCandidate { code, candidate, sdp_mid, sdp_m_line_index } => {
                Message::IceCandidate {
                    code: code.clone(),
                    candidate: candidate.clone(),
                    sdp_mid: clone_opt_text(sdp_mid),
                    sdp_m_line_index: *sdp_m_line_index,
                }
            },
            Message::Error { message } => Message::Error { message: message.clone() },
            Message::ViewerJoined { code } => Message::ViewerJoined { code: code.clone() },
            Message::Joined { code, role } => Message::Joined { code: code.clone(), role: *role },
        }
    }
}

impl Message {
    /// The kind of the message.
    pub fn kind(&self) -> (k: MessageKind)
        ensures
            k == self@.kind(),
    {
        match self {
            Message::Join { .. } => MessageKind::Join,
            Message::Offer { .. } => MessageKind::Offer,
            Message::Answer { .. } => MessageKind::Answer,
            Message::IceCandidate { .. } => MessageKind::IceCandidate,
            Message::Error { .. } => MessageKind::Error,
            Message::ViewerJoined { .. } => MessageKind::ViewerJoined,
            Message::Joined { .. } => MessageKind::Joined,
        }
    }

    /// The text of the session code the message carries; an error carries
    /// none.
    pub fn code(&self) -> (c: Option<&String>)
        ensures
            c.is_some() == self@.code().is_some(),
            c matches Some(t) ==> self@.code() == Some(t@),
    {
        match self {
            Message::Join { code, .. } => Some(code),
            Message::Offer { code, .. } => Some(code),
            Message::Answer { code, .. } => Some(code),
            Message::IceCandidate { code, .. } => Some(code),
            Message::Error { .. } => None,
            Message::ViewerJoined { code } => Some(code),
            Message::Joined { code, .. } => Some(code),
        }
    }
}

/// The routing table: an offer goes to the viewers, an answer to the sharer,
/// a candidate to the other side of whoever sent it. No other kind is
/// relayed.
pub open spec fn route_of(kind: MessageKind, sender: Role) -> Destination {
    match kind {
        MessageKind::Offer => Destination::Viewers,
        MessageKind::Answer => Destination::Sharer,
        MessageKind::IceCandidate => match sender {
            Role::Sharer => Destination::Viewers,
            Role::Viewer => Destination::Sharer,
        },
        _ => Destination::Nobody,
    }
}

/// Who receives a message of the given kind from a sender in the given role.
pub fn route(kind: MessageKind, sender: Role) -> (d: Destination)
    ensures
        d == route_of(kind, sender),
{
    match kind {
        MessageKind::Offer => Destination::Viewers,
        MessageKind::Answer => Destination::Sharer,
        MessageKind::IceCandidate => match sender {
            Role::Sharer => Destination::Viewers,
            Role::Viewer => Destination::Sharer,
        },
        _ => Destination::Nobody,
    }
}

} // verus!
