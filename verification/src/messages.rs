//! What travels between a session and the world around it: the frames of the
//! WebSocket peer, the events a session reacts to, and the effects it asks
//! for.
use vstd::prelude::*;

verus! {

/// The close code of a normal closure.
pub const CLOSE_NORMAL: u16 = 1000;

/// The close code by which a server says that it met an error.
pub const CLOSE_INTERNAL_ERROR: u16 = 1011;

/// Why a WebSocket endpoint is closed.
#[derive(Clone, Debug, PartialEq, Eq)]
pub struct CloseReason {
    pub code: u16,
    pub description: Option<String>,
}

/// A close reason as contracts see it.
pub struct CloseReasonView {
    pub code: u16,
    pub description: Option<Seq<char>>,
}

impl View for CloseReason {
    type V = CloseReasonView;

    open spec fn view(&self) -> CloseReasonView {
        CloseReasonView {
            code: self.code,
            description: match self.description {
                Some(text) => Some(text@),
                None => None,
            },
        }
    }
}

/// The view of an optional close reason.
pub open spec fn reason_view(reason: Option<CloseReason>) -> Option<CloseReasonView> {
    match reason {
        Some(r) => Some(r@),
        None => None,
    }
}

/// The reason given to the peer when the backend cannot be reached.
pub open spec fn backend_unreachable() -> CloseReasonView {
    CloseReasonView { code: CLOSE_INTERNAL_ERROR, description: None }
}

/// A frame received from the WebSocket peer.
#[derive(Clone, Debug, PartialEq, Eq)]
pub enum Frame {
    Ping(Vec<u8>),
    Pong(Vec<u8>),
    Binary(Vec<u8>),
    Text(String),
    Close(Option<CloseReason>),
    /// Anything else: a frame of another kind, or one that broke the
    /// protocol.
    Invalid,
}

/// A frame as contracts see it.
pub enum FrameView {
    Ping(Seq<u8>),
    Pong(Seq<u8>),
    Binary(Seq<u8>),
    Text(Seq<char>),
    Close(Option<CloseReasonView>),
    Invalid,
}

impl View for Frame {
    type V = FrameView;

    open spec fn view(&self) -> FrameView {
        match *self {
            Frame::Ping(payload) => FrameView::Ping(payload@),
            Frame::Pong(payload) => FrameView::Pong(payload@),
            Frame::Binary(payload) => FrameView::Binary(payload@),
            Frame::Text(text) => FrameView::Text(text@),
            Frame::Close(reason) => FrameView::Close(reason_view(reason)),
            Frame::Invalid => FrameView::Invalid,
        }
    }
}

/// One unit of the backend's stream, as text, on its way to the WebSocket
/// peer.
#[derive(Clone, Debug, PartialEq, Eq)]
pub struct WsMessage(pub String);

impl View for WsMessage {
    type V = Seq<char>;

    open spec fn view(&self) -> Seq<char> {
        self.0@
    }
}

/// Something a session asks its context to do.
#[derive(Clone, Debug, PartialEq, Eq)]
pub enum Effect {
    /// Start the heartbeat timer: a tick every `interval` time units.
    StartHeartbeat { interval: u64 },
    /// Enter the session in the registry under `id`.
    Register { id: u128 },
    /// Open a connection to the backend.
    Dial,
    /// Start reading the backend connection.
    SpawnReader,
    /// Send a ping to the peer.
    Ping,
    /// Answer the peer's ping with a pong of the same payload.
    Pong(Vec<u8>),
    /// Write these bytes to the backend, and report when the write is done
    /// or has failed.
    WriteTcp(Vec<u8>),
    /// Send one text frame to the peer.
    SendText(String),
    /// Close the WebSocket endpoint, with this reason if there is one.
    CloseWebSocket(Option<CloseReason>),
    /// Stop reading the backend connection.
    StopReader,
    /// Close the backend connection.
    CloseTcp,
    /// Cancel the heartbeat timer.
    CancelHeartbeat,
    /// Take the session out of the registry.
    Deregister { id: u128 },
    /// Stop the session's context: the session has been torn down.
    Stop,
}

/// An effect as contracts see it.
pub enum EffectView {
    StartHeartbeat { interval: u64 },
    Register { id: u128 },
    Dial,
    SpawnReader,
    Ping,
    Pong(Seq<u8>),
    WriteTcp(Seq<u8>),
    SendText(Seq<char>),
    CloseWebSocket(Option<CloseReasonView>),
    StopReader,
    CloseTcp,
    CancelHeartbeat,
    Deregister { id: u128 },
    Stop,
}

impl View for Effect {
    type V = EffectView;

    open spec fn view(&self) -> EffectView {
        match *self {
            Effect::StartHeartbeat { interval } => EffectView::StartHeartbeat { interval },
            Effect::Register { id } => EffectView::Register { id },
            Effect::Dial => EffectView::Dial,
            Effect::SpawnReader => EffectView::SpawnReader,
            Effect::Ping => EffectView::Ping,
            Effect::Pong(payload) => EffectView::Pong(payload@),
            Effect::WriteTcp(bytes) => EffectView::WriteTcp(bytes@),
            Effect::SendText(text) => EffectView::SendText(text@),
            Effect::CloseWebSocket(reason) => EffectView::CloseWebSocket(reason_view(reason)),
            Effect::StopReader => EffectView::StopReader,
            Effect::CloseTcp => EffectView::CloseTcp,
            Effect::CancelHeartbeat => EffectView::CancelHeartbeat,
            Effect::Deregister { id } => EffectView::Deregister { id },
            Effect::Stop => EffectView::Stop,
        }
    }
}

/// What kind of thing an effect asks for, whatever it carries.
pub enum EffectKind {
    StartHeartbeat,
    Register,
    Dial,
    SpawnReader,
    Ping,
    Pong,
    WriteTcp,
    SendText,
    CloseWebSocket,
    StopReader,
    CloseTcp,
    CancelHeartbeat,
    Deregister,
    Stop,
}

impl EffectView {
    /// The kind of the effect.
    pub open spec fn kind(self) -> EffectKind {
        match self {
            EffectView::StartHeartbeat { .. } => EffectKind::StartHeartbeat,
            EffectView::Register { .. } => EffectKind::Register,
            EffectView::Dial => EffectKind::Dial,
            EffectView::SpawnReader => EffectKind::SpawnReader,
            EffectView::Ping => EffectKind::Ping,
            EffectView::Pong(_) => EffectKind::Pong,
            EffectView::WriteTcp(_) => EffectKind::WriteTcp,
            EffectView::SendText(_) => EffectKind::SendText,
            EffectView::CloseWebSocket(_) => EffectKind::CloseWebSocket,
            EffectView::StopReader => EffectKind::StopReader,
            EffectView::CloseTcp => EffectKind::CloseTcp,
            EffectView::CancelHeartbeat => EffectKind::CancelHeartbeat,
            EffectView::Deregister { .. } => EffectKind::Deregister,
            EffectView::Stop => EffectKind::Stop,
        }
    }
}

/// The views of a list of effects, in order.
pub open spec fn effect_views(effects: Seq<Effect>) -> Seq<EffectView> {
    effects.map_values(|e: Effect| e@)
}

/// Something that happens to a session.
#[derive(Clone, Debug, PartialEq, Eq)]
pub enum Event {
    /// The session's context is up.
    Started,
    /// The backend connection is open.
    DialSucceeded,
    /// The backend could not be reached.
    DialFailed,
    /// The peer sent a frame, at time `now`.
    Frame { frame: Frame, now: u64 },
    /// The heartbeat timer fired, at time `now`.
    Tick { now: u64 },
    /// The reader decoded a unit of the backend's stream.
    Relay(WsMessage),
    /// The reader is done: the backend's stream ended, failed, or could not
    /// be decoded.
    ReaderEnded,
    /// The write to the backend that was under way is done.
    WriteCompleted,
    /// A write to the backend failed.
    WriteFailed,
    /// The session's context is going down.
    Stopping,
}

/// An event as contracts see it.
pub enum EventView {
    Started,
    DialSucceeded,
    DialFailed,
    Frame { frame: FrameView, now: u64 },
    Tick { now: u64 },
    Relay(Seq<char>),
    ReaderEnded,
    WriteCompleted,
    WriteFailed,
    Stopping,
}

impl View for Event {
    type V = EventView;

    open spec fn view(&self) -> EventView {
        match *self {
            Event::Started => EventView::Started,
            Event::DialSucceeded => EventView::DialSucceeded,
            Event::DialFailed => EventView::DialFailed,
            Event::Frame { frame, now } => EventView::Frame { frame: frame@, now },
            Event::Tick { now } => EventView::Tick { now },
            Event::Relay(message) => EventView::Relay(message@),
            Event::ReaderEnded => EventView::ReaderEnded,
            Event::WriteCompleted => EventView::WriteCompleted,
            Event::WriteFailed => EventView::WriteFailed,
            Event::Stopping => EventView::Stopping,
        }
    }
}

} // verus!
