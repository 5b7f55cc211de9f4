//! Payload messages and the frames a transport hands over.

use vstd::prelude::*;

verus! {

/// The two kinds of payload the relay forwards.
#[derive(Clone, Copy, PartialEq, Eq, Structural, Debug, Hash)]
pub enum MessageKind {
    Text,
    Binary,
}

/// What a [`Message`] is: a kind and a byte sequence.
pub struct MessageView {
    pub kind: MessageKind,
    pub payload: Seq<u8>,
}

/// An immutable payload tagged with its kind.
#[derive(PartialEq, Eq, Debug)]
pub struct Message {
    kind: MessageKind,
    payload: Vec<u8>,
}

impl View for Message {
    type V = MessageView;

    closed spec fn view(&self) -> MessageView {
        MessageView { kind: self.kind, payload: self.payload@ }
    }
}

impl Message {
    /// Builds a message of the given kind around `payload`.
    pub fn new(kind: MessageKind, payload: Vec<u8>) -> (m: Message)
        ensures
            m@ == (MessageView { kind, payload: payload@ }),
    {
        Message { kind, payload }
    }

    /// A text message whose payload is the UTF-8 encoding of the text.
    pub fn text(payload: Vec<u8>) -> (m: Message)
        ensures
            m@ == (MessageView { kind: MessageKind::Text, payload: payload@ }),
    {
        Message { kind: MessageKind::Text, payload }
    }

    /// A binary message.
    pub fn binary(payload: Vec<u8>) -> (m: Message)
        ensures
            m@ == (MessageView { kind: MessageKind::Binary, payload: payload@ }),
    {
        Message { kind: MessageKind::Binary, payload }
    }

    /// Text or binary.
    pub fn kind(&self) -> (k: MessageKind)
        ensures
            k == self@.kind,
    {
        self.kind
    }

    /// The bytes of the payload.
    pub fn payload(&self) -> (p: &Vec<u8>)
        ensures
            p@ == self@.payload,
    {
        &self.payload
    }

    /// Gives the payload back, consuming the message.
    pub fn into_payload(self) -> (p: Vec<u8>)
        ensures
            p@ == self@.payload,
    {
        self.payload
    }
}

impl Clone for Message {
    /// The copy has the same kind and the same bytes.
    fn clone(&self) -> (m: Message)
        ensures
            m@ == self@,
    {
        let payload = self.payload.clone();
        assert(payload@ =~= self.payload@);
        Message { kind: self.kind, payload }
    }
}

/// One unit of transport data, as a read attempt delivers it.
#[derive(PartialEq, Eq, Debug)]
pub enum Frame {
    Text(Vec<u8>),
    Binary(Vec<u8>),
    Ping(Vec<u8>),
    Pong(Vec<u8>),
    Close,
}

/// The message a frame carries: text and binary frames carry their bytes
/// under their own kind, control frames carry nothing.
pub open spec fn frame_message(frame: Frame) -> Option<MessageView> {
    match frame {
        Frame::Text(bytes) => Some(MessageView { kind: MessageKind::Text, payload: bytes@ }),
        Frame::Binary(bytes) => Some(MessageView { kind: MessageKind::Binary, payload: bytes@ }),
        Frame::Ping(_) => None,
        Frame::Pong(_) => None,
        Frame::Close => None,
    }
}

impl Frame {
    /// Ping, pong and close are control frames.
    pub open spec fn spec_is_control(&self) -> bool {
        self is Ping || self is Pong || self is Close
    }

    /// Whether the frame is a control frame, which carries no message.
    #[verifier::when_used_as_spec(spec_is_control)]
    pub fn is_control(&self) -> (b: bool)
        ensures
            b == self.spec_is_control(),
            b == frame_message(*self).is_none(),
    {
        match self {
            Frame::Text(_) => false,
            Frame::Binary(_) => false,
            Frame::Ping(_) => true,
            Frame::Pong(_) => true,
            Frame::Close => true,
        }
    }

    /// Wraps a payload frame as a message, bytes and kind untouched; a
    /// control frame yields nothing.
    pub fn into_message(self) -> (m: Option<Message>)
        ensures
            match m {
                Some(msg) => frame_message(self) == Some(msg@),
                None => frame_message(self).is_none(),
            },
    {
        match self {
            Frame::Text(bytes) => Some(Message::text(bytes)),
            Frame::Binary(bytes) => Some(Message::binary(bytes)),
            Frame::Ping(_) => None,
            Frame::Pong(_) => None,
            Frame::Close => None,
        }
    }
}

/// What one non-blocking read attempt on a connection produced.
#[derive(PartialEq, Eq, Debug)]
pub enum ReadOutcome {
    /// Nothing was waiting.
    Idle,
    /// One whole frame arrived.
    Frame(Frame),
    /// The peer is gone or the socket is unusable.
    Failed,
}

/// The message a read attempt contributes to the tick, if any.
pub open spec fn outcome_message(outcome: ReadOutcome) -> Option<MessageView> {
    match outcome {
        ReadOutcome::Frame(frame) => frame_message(frame),
        _ => None,
    }
}

} // verus!
