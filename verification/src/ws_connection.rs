//! The bridge session: one WebSocket endpoint paired with one backend
//! connection, from the moment the peer is accepted until both are closed;
//! and the reader that feeds it the backend's stream.
//!
//! A session does no I/O. It lives in a context, the task or actor that owns
//! the sockets and the heartbeat timer: the context tells the session what
//! happened, with the time where time matters, and carries out the effects
//! that the session asks for, in their order. Time is counted in whole units
//! from any fixed moment; the heartbeat constants are in the same units.
use crate::framing::{
    encode_text, text_on_wire, CodecError, CodecModel, FramingCodec, FramingPolicy,
};
use crate::messages::{
    backend_unreachable, effect_views, reason_view, CloseReason, CloseReasonView, Effect,
    EffectView, Event, EventView, Frame, FrameView, WsMessage, CLOSE_INTERNAL_ERROR,
};
use std::collections::VecDeque;
use vstd::prelude::*;
use vstd::utf8::*;

verus! {

/// Time units between two heartbeat ticks.
pub const HEARTBEAT_INTERVAL: u64 = 5;

/// Time units without a sign of life after which the peer is given up.
pub const CLIENT_TIMEOUT: u64 = 10;

/// Where a session stands in its life.
#[derive(Clone, Copy, Debug, PartialEq, Eq, Structural)]
pub enum Lifecycle {
    /// Created; its context is not up yet.
    Initializing,
    /// Registered, and waiting for the backend connection.
    Dialing,
    /// Relaying in both directions.
    Active,
    /// Torn down, and waiting for its context to go.
    Closing,
    /// Gone. Nothing happens to it any more.
    Closed,
}

/// What a step leads to: the session after it, and the effects it asks for,
/// in the order in which they are to be carried out.
pub struct Outcome {
    pub session: SessionModel,
    pub effects: Seq<EffectView>,
}

/// What a session is, to its contracts.
pub struct SessionModel {
    /// The identifier under which the session is registered.
    pub id: u128,
    /// When the peer last gave a sign of life.
    pub hb: u64,
    pub state: Lifecycle,
    pub policy: FramingPolicy,
    /// A write to the backend was asked for and has not completed.
    pub writing: bool,
    /// The payloads that wait for that write to complete, oldest first.
    pub queue: Seq<Seq<u8>>,
}

impl SessionModel {
    /// A session that was just created at time `now`.
    pub open spec fn fresh(id: u128, now: u64, policy: FramingPolicy) -> SessionModel {
        SessionModel {
            id,
            hb: now,
            state: Lifecycle::Initializing,
            policy,
            writing: false,
            queue: Seq::empty(),
        }
    }

    /// The session has not been torn down.
    pub open spec fn alive(self) -> bool {
        self.state is Initializing || self.state is Dialing || self.state is Active
    }

    /// Only an active session writes, and payloads wait only for a write
    /// that is under way.
    pub open spec fn wf(self) -> bool {
        &&& self.writing ==> self.state is Active
        &&& !self.writing ==> self.queue.len() == 0
    }

    /// Whether at time `now` the peer has been silent for longer than the
    /// timeout.
    pub open spec fn expired(self, now: u64) -> bool {
        now - self.hb > CLIENT_TIMEOUT
    }

    /// The session as it is, and nothing to do.
    pub open spec fn ignore(self) -> Outcome {
        Outcome { session: self, effects: Seq::empty() }
    }

    /// What it takes to let go of all that the session holds in its state:
    /// the WebSocket endpoint, closed with `reason`; once the relay is live,
    /// the backend connection and its reader; once the session has started,
    /// its heartbeat timer; and, in every state, its entry in the registry.
    pub open spec fn teardown(self, reason: Option<CloseReasonView>) -> Seq<EffectView> {
        seq![EffectView::CloseWebSocket(reason)] + (if self.state is Active {
            seq![EffectView::StopReader, EffectView::CloseTcp]
        } else {
            Seq::empty()
        }) + (if self.state is Dialing || self.state is Active {
            seq![EffectView::CancelHeartbeat]
        } else {
            Seq::empty()
        }) + seq![EffectView::Deregister { id: self.id }]
    }

    /// The session ends. If it is alive it is torn down, the peer is given
    /// `reason`, payloads that still wait are dropped, and its context is
    /// told to stop; otherwise nothing happens.
    pub open spec fn close(self, reason: Option<CloseReasonView>) -> Outcome {
        if self.alive() {
            Outcome {
                session: SessionModel {
                    state: Lifecycle::Closing,
                    writing: false,
                    queue: Seq::empty(),
                    ..self
                },
                effects: self.teardown(reason).push(EffectView::Stop),
            }
        } else {
            self.ignore()
        }
    }

    /// The context is up: the heartbeat starts, the session enters the
    /// registry, and the backend is dialed.
    pub open spec fn started(self) -> Outcome {
        if self.state is Initializing {
            Outcome {
                session: SessionModel { state: Lifecycle::Dialing, ..self },
                effects: seq![
                    EffectView::StartHeartbeat { interval: HEARTBEAT_INTERVAL },
                    EffectView::Register { id: self.id },
                    EffectView::Dial,
                ],
            }
        } else {
            self.ignore()
        }
    }

    /// The backend connection is open: the relay begins.
    pub open spec fn dial_succeeded(self) -> Outcome {
        if self.state is Dialing {
            Outcome {
                session: SessionModel { state: Lifecycle::Active, ..self },
                effects: seq![EffectView::SpawnReader],
            }
        } else {
            self.ignore()
        }
    }

    /// The backend cannot be reached: the session ends, and tells the peer
    /// of an internal error.
    pub open spec fn dial_failed(self) -> Outcome {
        if self.state is Dialing {
            self.close(Some(backend_unreachable()))
        } else {
            self.ignore()
        }
    }

    /// A payload is due to the backend. An active session writes it at once
    /// if no write is under way, and else puts it behind the payloads that
    /// wait. Any other session drops it.
    pub open spec fn submit(self, bytes: Seq<u8>) -> Outcome {
        if !(self.state is Active) {
            self.ignore()
        } else if self.writing {
            Outcome {
                session: SessionModel { queue: self.queue.push(bytes), ..self },
                effects: Seq::empty(),
            }
        } else {
            Outcome {
                session: SessionModel { writing: true, ..self },
                effects: seq![EffectView::WriteTcp(bytes)],
            }
        }
    }

    /// The peer sent `frame` at time `now`.
    pub open spec fn handle(self, frame: FrameView, now: u64) -> Outcome {
        if !self.alive() {
            self.ignore()
        } else {
            match frame {
                FrameView::Ping(payload) => Outcome {
                    session: SessionModel { hb: now, ..self },
                    effects: seq![EffectView::Pong(payload)],
                },
                FrameView::Pong(_) => Outcome {
                    session: SessionModel { hb: now, ..self },
                    effects: Seq::empty(),
                },
                FrameView::Binary(payload) => self.submit(payload),
                FrameView::Text(text) => self.submit(text_on_wire(self.policy, text)),
                FrameView::Close(reason) => self.close(reason),
                FrameView::Invalid => self.close(None),
            }
        }
    }

    /// The heartbeat timer fired at time `now`.
    pub open spec fn hb(self, now: u64) -> Outcome {
        if !self.alive() {
            self.ignore()
        } else if self.expired(now) {
            self.close(None)
        } else {
            Outcome { session: self, effects: seq![EffectView::Ping] }
        }
    }

    /// The reader decoded a unit, `text`.
    pub open spec fn relay(self, text: Seq<char>) -> Outcome {
        if self.state is Active {
            Outcome { session: self, effects: seq![EffectView::SendText(text)] }
        } else {
            self.ignore()
        }
    }

    /// The backend connection is of no use any more: its stream ended or
    /// failed, or a write to it failed.
    pub open spec fn backend_lost(self) -> Outcome {
        if self.state is Active {
            self.close(None)
        } else {
            self.ignore()
        }
    }

    /// The write that was under way is done: the oldest payload that waits
    /// is written next, if there is one.
    pub open spec fn write_completed(self) -> Outcome {
        if !(self.state is Active && self.writing) {
            self.ignore()
        } else if self.queue.len() > 0 {
            Outcome {
                session: SessionModel { queue: self.queue.drop_first(), ..self },
                effects: seq![EffectView::WriteTcp(self.queue[0])],
            }
        } else {
            Outcome { session: SessionModel { writing: false, ..self }, effects: Seq::empty() }
        }
    }

    /// The context is going: the session is closed from now on. One that
    /// was still alive is torn down first, without a word to its peer.
    pub open spec fn stopping(self) -> Outcome {
        Outcome {
            session: SessionModel {
                state: Lifecycle::Closed,
                writing: false,
                queue: Seq::empty(),
                ..self
            },
            effects: if self.alive() {
                self.teardown(None)
            } else {
                Seq::empty()
            },
        }
    }

    /// What `event` leads to.
    pub open spec fn step(self, event: EventView) -> Outcome {
        match event {
            EventView::Started => self.started(),
            EventView::DialSucceeded => self.dial_succeeded(),
            EventView::DialFailed => self.dial_failed(),
            EventView::Frame { frame, now } => self.handle(frame, now),
            EventView::Tick { now } => self.hb(now),
            EventView::Relay(text) => self.relay(text),
            EventView::ReaderEnded => self.backend_lost(),
            EventView::WriteCompleted => self.write_completed(),
            EventView::WriteFailed => self.backend_lost(),
            EventView::Stopping => self.stopping(),
        }
    }

    /// What a sequence of events leads to, one step after the other: the
    /// session after the last, and all effects in the order in which the
    /// steps asked for them.
    pub open spec fn run(self, events: Seq<EventView>) -> Outcome
        decreases events.len(),
    {
        if events.len() == 0 {
            self.ignore()
        } else {
            let before = self.run(events.drop_last());
            let last = before.session.step(events.last());
            Outcome { session: last.session, effects: before.effects + last.effects }
        }
    }
}

/// The views of a list of events, in order.
pub open spec fn event_views(events: Seq<Event>) -> Seq<EventView> {
    events.map_values(|e: Event| e@)
}

/// The views of a list of payloads, in order.
pub open spec fn payload_views(payloads: Seq<Vec<u8>>) -> Seq<Seq<u8>> {
    payloads.map_values(|p: Vec<u8>| p@)
}

/// Whether `id` has the shape of a random identifier: version 4, in the
/// variant of RFC 9562.
pub open spec fn is_random_identifier(id: u128) -> bool {
    (id >> 76u128) & 0xfu128 == 4 && (id >> 62u128) & 0x3u128 == 2
}

/// Calls `uuid::Uuid::new_v4` and hands out the identifier as the integer
/// that `Uuid::as_u128` makes of it. The contract claims only what the
/// crate's source shows of every outcome: the version bits are 4 and the
/// variant bits are `10`; all other bits come from the system's random
/// source. `new_v4` panics when that source fails.
#[verifier::external_body]
fn mint_identifier() -> (id: u128)
    ensures
        is_random_identifier(id),
{
    uuid::Uuid::new_v4().as_u128()
}

/// One end-to-end bridge.
pub struct WsConn {
    hb: u64,
    id: u128,
    state: Lifecycle,
    policy: FramingPolicy,
    writing: bool,
    queue: VecDeque<Vec<u8>>,
}

impl View for WsConn {
    type V = SessionModel;

    closed spec fn view(&self) -> SessionModel {
        SessionModel {
            id: self.id,
            hb: self.hb,
            state: self.state,
            policy: self.policy,
            writing: self.writing,
            queue: payload_views(self.queue@),
        }
    }
}

impl WsConn {
    /// Every session is well-formed.
    #[verifier::type_invariant]
    pub open spec fn well_formed(self) -> bool {
        self@.wf()
    }

    /// A session created at time `now`, under a newly minted random
    /// identifier.
    pub fn new(now: u64, policy: FramingPolicy) -> (conn: Self)
        ensures
            conn@ == SessionModel::fresh(conn@.id, now, policy),
            is_random_identifier(conn@.id),
            conn@.wf(),
    {
        let id = mint_identifier();
        Self::with_id(id, now, policy)
    }

    /// A session created at time `now` under the identifier `id`.
    pub fn with_id(id: u128, now: u64, policy: FramingPolicy) -> (conn: Self)
        ensures
            conn@ == SessionModel::fresh(id, now, policy),
            conn@.wf(),
    {
        let conn = WsConn {
            hb: now,
            id,
            state: Lifecycle::Initializing,
            policy,
            writing: false,
            queue: VecDeque::new(),
        };
        assert(conn@.queue =~= Seq::<Seq<u8>>::empty());
        conn
    }

    /// The session's identifier.
    pub fn id(&self) -> (id: u128)
        ensures
            id == self@.id,
    {
        self.id
    }

    /// Where the session stands.
    pub fn state(&self) -> (state: Lifecycle)
        ensures
            state == self@.state,
    {
        self.state
    }

    /// When the peer last gave a sign of life.
    pub fn last_heartbeat(&self) -> (hb: u64)
        ensures
            hb == self@.hb,
    {
        self.hb
    }

    /// The framing policy of the session.
    pub fn policy(&self) -> (policy: FramingPolicy)
        ensures
            policy == self@.policy,
    {
        self.policy
    }

    /// Whether the session has not been torn down.
    pub fn is_alive(&self) -> (alive: bool)
        ensures
            alive == self@.alive(),
    {
        match self.state {
            Lifecycle::Initializing | Lifecycle::Dialing | Lifecycle::Active => true,
            Lifecycle::Closing | Lifecycle::Closed => false,
        }
    }

    /// Whether a write to the backend is under way.
    pub fn is_writing(&self) -> (writing: bool)
        ensures
            writing == self@.writing,
    {
        self.writing
    }

    /// How many payloads wait for the write that is under way.
    pub fn queued(&self) -> (count: usize)
        ensures
            count == self@.queue.len(),
    {
        self.queue.len()
    }

    fn release(&mut self, reason: Option<CloseReason>) -> (effects: Vec<Effect>)
        ensures
            effect_views(effects@) == old(self)@.teardown(reason_view(reason)),
            final(self)@ == (SessionModel { writing: false, queue: Seq::empty(), ..old(self)@ }),
    {
        proof {
            use_type_invariant(&*self);
        }
        let mut effects: Vec<Effect> = Vec::new();
        effects.push(Effect::CloseWebSocket(reason));
        match self.state {
            Lifecycle::Active => {
                effects.push(Effect::StopReader);
                effects.push(Effect::CloseTcp);
            },
            _ => {},
        }
        match self.state {
            Lifecycle::Dialing | Lifecycle::Active => {
                effects.push(Effect::CancelHeartbeat);
            },
            _ => {},
        }
        effects.push(Effect::Deregister { id: self.id });
        let nothing: VecDeque<Vec<u8>> = VecDeque::new();
        assert(payload_views(nothing@) =~= Seq::<Seq<u8>>::empty());
        self.queue = nothing;
        self.writing = false;
        assert(effect_views(effects@) =~= old(self)@.teardown(reason_view(reason)));
        assert(self@.queue =~= Seq::<Seq<u8>>::empty());
        effects
    }

    fn close(&mut self, reason: Option<CloseReason>) -> (effects: Vec<Effect>)
        ensures
            final(self)@ == old(self)@.close(reason_view(reason)).session,
            effect_views(effects@) == old(self)@.close(reason_view(reason)).effects,
            final(self)@.wf(),
    {
        proof {
            use_type_invariant(&*self);
        }
        if self.is_alive() {
            let mut effects = self.release(reason);
            self.state = Lifecycle::Closing;
            let ghost released = effect_views(effects@);
            effects.push(Effect::Stop);
            assert(effect_views(effects@) =~= released.push(EffectView::Stop));
            effects
        } else {
            let effects: Vec<Effect> = Vec::new();
            assert(effect_views(effects@) =~= Seq::<EffectView>::empty());
            effects
        }
    }

    fn submit(&mut self, bytes: Vec<u8>) -> (effects: Vec<Effect>)
        ensures
            final(self)@ == old(self)@.submit(bytes@).session,
            effect_views(effects@) == old(self)@.submit(bytes@).effects,
            final(self)@.wf(),
    {
        proof {
            use_type_invariant(&*self);
        }
        let mut effects: Vec<Effect> = Vec::new();
        if self.state == Lifecycle::Active {
            if self.writing {
                let mut queue: VecDeque<Vec<u8>> = VecDeque::new();
                std::mem::swap(&mut queue, &mut self.queue);
                queue.push_back(bytes);
                self.queue = queue;
                assert(self@.queue =~= old(self)@.queue.push(bytes@));
            } else {
                self.writing = true;
                effects.push(Effect::WriteTcp(bytes));
            }
        }
        assert(effect_views(effects@) =~= old(self)@.submit(bytes@).effects);
        effects
    }

    /// The session's context is up. A session that was just created starts
    /// its heartbeat, enters the registry and dials the backend; any other
    /// session does nothing.
    pub fn started(&mut self) -> (effects: Vec<Effect>)
        ensures
            final(self)@ == old(self)@.started().session,
            effect_views(effects@) == old(self)@.started().effects,
            final(self)@.wf(),
    {
        proof {
            use_type_invariant(&*self);
        }
        let mut effects: Vec<Effect> = Vec::new();
        match self.state {
            Lifecycle::Initializing => {
                self.state = Lifecycle::Dialing;
                effects.push(Effect::StartHeartbeat { interval: HEARTBEAT_INTERVAL });
                effects.push(Effect::Register { id: self.id });
                effects.push(Effect::Dial);
            },
            _ => {},
        }
        assert(effect_views(effects@) =~= old(self)@.started().effects);
        effects
    }

    /// The backend connection is open. A dialing session becomes active and
    /// asks for its reader. Any other session does nothing: the connection
    /// is not taken over, and is the caller's to drop.
    pub fn dial_succeeded(&mut self) -> (effects: Vec<Effect>)
        ensures
            final(self)@ == old(self)@.dial_succeeded().session,
            effect_views(effects@) == old(self)@.dial_succeeded().effects,
            final(self)@.wf(),
    {
        proof {
            use_type_invariant(&*self);
        }
        let mut effects: Vec<Effect> = Vec::new();
        match self.state {
            Lifecycle::Dialing => {
                self.state = Lifecycle::Active;
                effects.push(Effect::SpawnReader);
            },
            _ => {},
        }
        assert(effect_views(effects@) =~= old(self)@.dial_succeeded().effects);
        effects
    }

    /// The backend could not be reached. A dialing session ends: it closes
    /// the WebSocket endpoint with the code of an internal error, leaves the
    /// registry, and has its context stop. No reader is ever started for it.
    pub fn dial_failed(&mut self) -> (effects: Vec<Effect>)
        ensures
            final(self)@ == old(self)@.dial_failed().session,
            effect_views(effects@) == old(self)@.dial_failed().effects,
            final(self)@.wf(),
    {
        proof {
            use_type_invariant(&*self);
        }
        match self.state {
            Lifecycle::Dialing => self.close(
                Some(CloseReason { code: CLOSE_INTERNAL_ERROR, description: None }),
            ),
            _ => {
                let effects: Vec<Effect> = Vec::new();
                assert(effect_views(effects@) =~= Seq::<EffectView>::empty());
                effects
            },
        }
    }

    /// The peer sent `frame` at time `now`.
    ///
    /// A ping is answered with a pong of the same payload, and like a pong
    /// counts as a sign of life. A binary payload is due to the backend as
    /// it is, a text payload as its UTF-8 bytes, with a newline after them
    /// under the line-delimited policy; an active session writes the payload
    /// at once when no write is under way, and queues it otherwise, and a
    /// session that is not active yet drops it. A close frame ends the
    /// session, which answers with a close of the same reason; an invalid
    /// frame ends it without a reason. A session that is closing or closed
    /// discards every frame.
    pub fn handle(&mut self, frame: Frame, now: u64) -> (effects: Vec<Effect>)
        ensures
            final(self)@ == old(self)@.handle(frame@, now).session,
            effect_views(effects@) == old(self)@.handle(frame@, now).effects,
            final(self)@.wf(),
    {
        proof {
            use_type_invariant(&*self);
        }
        if !self.is_alive() {
            let effects: Vec<Effect> = Vec::new();
            assert(effect_views(effects@) =~= Seq::<EffectView>::empty());
            return effects;
        }
        match frame {
            Frame::Ping(payload) => {
                self.hb = now;
                let mut effects: Vec<Effect> = Vec::new();
                effects.push(Effect::Pong(payload));
                assert(effect_views(effects@) =~= seq![EffectView::Pong(payload@)]);
                effects
            },
            Frame::Pong(_) => {
                self.hb = now;
                let effects: Vec<Effect> = Vec::new();
                assert(effect_views(effects@) =~= Seq::<EffectView>::empty());
                effects
            },
            Frame::Binary(payload) => self.submit(payload),
            Frame::Text(text) => {
                let bytes = encode_text(self.policy, text.as_str());
                self.submit(bytes)
            },
            Frame::Close(reason) => self.close(reason),
            Frame::Invalid => self.close(None),
        }
    }

    /// The heartbeat timer fired at time `now`. A session whose peer has been
    /// silent for more than the timeout ends, without a reason given to the
    /// peer; another session that is alive pings its peer.
    pub fn hb(&mut self, now: u64) -> (effects: Vec<Effect>)
        ensures
            final(self)@ == old(self)@.hb(now).session,
            effect_views(effects@) == old(self)@.hb(now).effects,
            final(self)@.wf(),
    {
        proof {
            use_type_invariant(&*self);
        }
        let mut effects: Vec<Effect> = Vec::new();
        if !self.is_alive() {
            assert(effect_views(effects@) =~= Seq::<EffectView>::empty());
            return effects;
        }
        if now > self.hb && now - self.hb > CLIENT_TIMEOUT {
            return self.close(None);
        }
        effects.push(Effect::Ping);
        assert(effect_views(effects@) =~= seq![EffectView::Ping]);
        effects
    }

    /// The reader decoded a unit. An active session sends it to the peer as
    /// one text frame, as it is; any other session discards it.
    pub fn relay(&mut self, message: WsMessage) -> (effects: Vec<Effect>)
        ensures
            final(self)@ == old(self)@.relay(message@).session,
            effect_views(effects@) == old(self)@.relay(message@).effects,
            final(self)@.wf(),
    {
        proof {
            use_type_invariant(&*self);
        }
        let mut effects: Vec<Effect> = Vec::new();
        if self.state == Lifecycle::Active {
            effects.push(Effect::SendText(message.0));
        }
        assert(effect_views(effects@) =~= old(self)@.relay(message@).effects);
        effects
    }

    fn lose_backend(&mut self) -> (effects: Vec<Effect>)
        ensures
            final(self)@ == old(self)@.backend_lost().session,
            effect_views(effects@) == old(self)@.backend_lost().effects,
            final(self)@.wf(),
    {
        proof {
            use_type_invariant(&*self);
        }
        if self.state == Lifecycle::Active {
            self.close(None)
        } else {
            let effects: Vec<Effect> = Vec::new();
            assert(effect_views(effects@) =~= Seq::<EffectView>::empty());
            effects
        }
    }

    /// The reader is done: the backend's stream ended, failed, or could not
    /// be decoded. An active session ends.
    pub fn reader_ended(&mut self) -> (effects: Vec<Effect>)
        ensures
            final(self)@ == old(self)@.backend_lost().session,
            effect_views(effects@) == old(self)@.backend_lost().effects,
            final(self)@.wf(),
    {
        self.lose_backend()
    }

    /// A write to the backend failed. An active session ends: the write is
    /// not tried again, and the payloads that wait are dropped.
    pub fn write_failed(&mut self) -> (effects: Vec<Effect>)
        ensures
            final(self)@ == old(self)@.backend_lost().session,
            effect_views(effects@) == old(self)@.backend_lost().effects,
            final(self)@.wf(),
    {
        self.lose_backend()
    }

    /// The write that was under way is done. An active session writes the
    /// oldest payload that waits, if there is one; so no two writes are ever
    /// under way together, and payloads reach the backend in the order in
    /// which the peer sent them.
    pub fn write_completed(&mut self) -> (effects: Vec<Effect>)
        ensures
            final(self)@ == old(self)@.write_completed().session,
            effect_views(effects@) == old(self)@.write_completed().effects,
            final(self)@.wf(),
    {
        proof {
            use_type_invariant(&*self);
        }
        let mut effects: Vec<Effect> = Vec::new();
        if self.state == Lifecycle::Active && self.writing {
            let mut queue: VecDeque<Vec<u8>> = VecDeque::new();
            std::mem::swap(&mut queue, &mut self.queue);
            match queue.pop_front() {
                Some(next) => {
                    effects.push(Effect::WriteTcp(next));
                    self.queue = queue;
                    assert(self@.queue =~= old(self)@.queue.drop_first());
                },
                None => {
                    self.writing = false;
                    assert(self@.queue =~= old(self)@.queue);
                },
            }
        }
        assert(effect_views(effects@) =~= old(self)@.write_completed().effects);
        effects
    }

    /// The session's context is going. A session that is still alive is
    /// torn down first; in any case the session is closed afterwards, and a
    /// second call finds nothing to do.
    pub fn stopping(&mut self) -> (effects: Vec<Effect>)
        ensures
            final(self)@ == old(self)@.stopping().session,
            effect_views(effects@) == old(self)@.stopping().effects,
            final(self)@.wf(),
    {
        proof {
            use_type_invariant(&*self);
        }
        let effects = if self.is_alive() {
            self.release(None)
        } else {
            let nothing: Vec<Effect> = Vec::new();
            assert(effect_views(nothing@) =~= Seq::<EffectView>::empty());
            let none: VecDeque<Vec<u8>> = VecDeque::new();
            assert(payload_views(none@) =~= Seq::<Seq<u8>>::empty());
            self.queue = none;
            self.writing = false;
            nothing
        };
        self.state = Lifecycle::Closed;
        effects
    }

    /// Handles one event, whichever it is.
    pub fn step(&mut self, event: Event) -> (effects: Vec<Effect>)
        ensures
            final(self)@ == old(self)@.step(event@).session,
            effect_views(effects@) == old(self)@.step(event@).effects,
            final(self)@.wf(),
    {
        match event {
            Event::Started => self.started(),
            Event::DialSucceeded => self.dial_succeeded(),
            Event::DialFailed => self.dial_failed(),
            Event::Frame { frame, now } => self.handle(frame, now),
            Event::Tick { now } => self.hb(now),
            Event::Relay(message) => self.relay(message),
            Event::ReaderEnded => self.reader_ended(),
            Event::WriteCompleted => self.write_completed(),
            Event::WriteFailed => self.write_failed(),
            Event::Stopping => self.stopping(),
        }
    }

    /// Handles a sequence of events, one after the other, and hands back
    /// all effects in the order in which the steps asked for them.
    pub fn run(&mut self, events: Vec<Event>) -> (effects: Vec<Effect>)
        ensures
            final(self)@ == old(self)@.run(event_views(events@)).session,
            effect_views(effects@) == old(self)@.run(event_views(events@)).effects,
            final(self)@.wf(),
    {
        let mut effects: Vec<Effect> = Vec::new();
        let ghost all = event_views(events@);
        assert(all.take(0) =~= Seq::<EventView>::empty());
        assert(effect_views(effects@) =~= Seq::<EffectView>::empty());
        for event in it: events
            invariant
                it.seq() == events@,
                all == event_views(events@),
                self@ == old(self)@.run(all.take(it.index() as int)).session,
                effect_views(effects@) == old(self)@.run(all.take(it.index() as int)).effects,
        {
            let ghost done = effect_views(effects@);
            let ghost seen = all.take(it.index() as int);
            let ghost next = all.take(it.index() + 1);
            let mut more = self.step(event);
            let ghost asked = effect_views(more@);
            effects.append(&mut more);
            proof {
                assert(next.drop_last() =~= seen);
                assert(next.last() == event@);
                assert(effect_views(effects@) =~= done + asked);
            }
        }
        proof {
            use_type_invariant(&*self);
            assert(all.take(events@.len() as int) =~= all);
        }
        effects
    }
}

/// The text that `String::from_utf8_lossy` makes of `bytes`.
pub uninterp spec fn lossy_text(bytes: Seq<u8>) -> Seq<char>;

/// Calls `String::from_utf8_lossy` and takes the text it gives as an owned
/// string. The contract names that text, and claims of it what the
/// function's documentation says of well-formed input: bytes that are valid
/// UTF-8 become the text they encode, unchanged. Of other input the
/// documentation says that each invalid sequence is replaced by U+FFFD; the
/// contract does not spell that out.
#[verifier::external_body]
fn text_from_bytes(bytes: &[u8]) -> (text: String)
    ensures
        text@ == lossy_text(bytes@),
        valid_utf8(bytes@) ==> text@ == decode_utf8(bytes@),
{
    String::from_utf8_lossy(bytes).into_owned()
}

/// The texts of the given units, in order.
pub open spec fn unit_texts(units: Seq<Seq<u8>>) -> Seq<Seq<char>> {
    units.map_values(|unit: Seq<u8>| lossy_text(unit))
}

/// The views of a list of messages, in order.
pub open spec fn message_views(messages: Seq<WsMessage>) -> Seq<Seq<char>> {
    messages.map_values(|m: WsMessage| m@)
}

/// The backend connection failed while it was read.
#[derive(Clone, Copy, Debug, PartialEq, Eq, Structural)]
pub struct ReadError;

/// Why a reader is done.
#[derive(Clone, Copy, Debug, PartialEq, Eq, Structural)]
pub enum StreamEnd {
    /// The backend closed its stream.
    Finished,
    /// Reading the backend connection failed.
    ReadFailed,
    /// The stream could not be cut into units.
    Undecodable(CodecError),
}

/// What a reader hands to its session after one event: the units it
/// decoded, as text and in stream order, and the news that it is done, if it
/// is.
#[derive(Clone, Debug, PartialEq, Eq)]
pub struct Delivery {
    pub messages: Vec<WsMessage>,
    pub ended: Option<StreamEnd>,
}

/// A delivery as contracts see it.
pub struct DeliveryView {
    pub messages: Seq<Seq<char>>,
    pub ended: Option<StreamEnd>,
}

impl View for Delivery {
    type V = DeliveryView;

    open spec fn view(&self) -> DeliveryView {
        DeliveryView { messages: message_views(self.messages@), ended: self.ended }
    }
}

/// What an event leads a reader to: the reader after it, and what it
/// delivers.
pub struct ReaderOutcome {
    pub reader: ReaderModel,
    pub delivery: DeliveryView,
}

/// What a reader is, to its contracts.
pub struct ReaderModel {
    pub codec: CodecModel,
    /// The reader still consumes its stream.
    pub running: bool,
}

impl ReaderModel {
    /// The reader as it is, and nothing to deliver.
    pub open spec fn ignore(self) -> ReaderOutcome {
        ReaderOutcome {
            reader: self,
            delivery: DeliveryView { messages: Seq::empty(), ended: None },
        }
    }

    /// The reader is done, for the reason `end`.
    pub open spec fn end(self, end: StreamEnd) -> ReaderOutcome {
        if self.running {
            ReaderOutcome {
                reader: ReaderModel { running: false, ..self },
                delivery: DeliveryView { messages: Seq::empty(), ended: Some(end) },
            }
        } else {
            self.ignore()
        }
    }

    /// The backend connection yielded a chunk of bytes, or failed.
    pub open spec fn handle(self, msg: Result<Seq<u8>, ReadError>) -> ReaderOutcome {
        match msg {
            Ok(data) => if !self.running {
                self.ignore()
            } else if self.codec.accepts(data) {
                ReaderOutcome {
                    reader: ReaderModel { codec: self.codec.after(data), ..self },
                    delivery: DeliveryView {
                        messages: unit_texts(self.codec.units(data)),
                        ended: None,
                    },
                }
            } else {
                self.end(StreamEnd::Undecodable(CodecError::LineTooLong))
            },
            Err(_) => self.end(StreamEnd::ReadFailed),
        }
    }
}

/// The view of what a backend connection yields.
pub open spec fn chunk_view(msg: Result<Vec<u8>, ReadError>) -> Result<Seq<u8>, ReadError> {
    match msg {
        Ok(data) => Ok(data@),
        Err(e) => Err(e),
    }
}

/// The read side of one backend connection. It cuts the stream into units
/// and turns each into the text that its session sends to the peer.
pub struct TcpStreamHandler {
    codec: FramingCodec,
    running: bool,
}

impl View for TcpStreamHandler {
    type V = ReaderModel;

    closed spec fn view(&self) -> ReaderModel {
        ReaderModel { codec: self.codec@, running: self.running }
    }
}

impl TcpStreamHandler {
    /// A running reader that decodes with `codec`.
    pub fn create_and_start(codec: FramingCodec) -> (reader: Self)
        ensures
            reader@ == (ReaderModel { codec: codec@, running: true }),
            reader@.codec.wf(),
    {
        proof {
            use_type_invariant(&codec);
        }
        TcpStreamHandler { codec, running: true }
    }

    /// Whether the reader still consumes its stream.
    pub fn is_running(&self) -> (running: bool)
        ensures
            running == self@.running,
    {
        self.running
    }

    /// The codec of the reader.
    pub fn codec(&self) -> (codec: &FramingCodec)
        ensures
            codec@ == self@.codec,
            self@.codec.wf(),
    {
        proof {
            use_type_invariant(&self.codec);
        }
        &self.codec
    }

    fn finish(&mut self, end: StreamEnd) -> (out: Delivery)
        ensures
            final(self)@ == old(self)@.end(end).reader,
            out@ == old(self)@.end(end).delivery,
            final(self)@.codec.wf(),
    {
        proof {
            use_type_invariant(&self.codec);
        }
        let ended = if self.running {
            Some(end)
        } else {
            None
        };
        self.running = false;
        let out = Delivery { messages: Vec::new(), ended };
        assert(out@.messages =~= Seq::<Seq<char>>::empty());
        out
    }

    /// The backend connection yielded `msg`: a chunk of its stream, or a
    /// failure.
    ///
    /// A running reader decodes the chunk and delivers each unit it
    /// completes as one message, in stream order. On a failure, or on a
    /// chunk that its codec refuses, it delivers nothing, reports why, and
    /// stops. A reader that has stopped discards whatever it is given.
    pub fn handle(&mut self, msg: Result<Vec<u8>, ReadError>) -> (out: Delivery)
        ensures
            final(self)@ == old(self)@.handle(chunk_view(msg)).reader,
            out@ == old(self)@.handle(chunk_view(msg)).delivery,
            match msg {
                Ok(data) => old(self)@.running && old(self)@.codec.accepts(data@) ==> forall|
                    i: int,
                |
                    0 <= i < out@.messages.len() && valid_utf8(
                        #[trigger] old(self)@.codec.units(data@)[i],
                    ) ==> out@.messages[i] == decode_utf8(old(self)@.codec.units(data@)[i]),
                Err(_) => true,
            },
            final(self)@.codec.wf(),
    {
        proof {
            use_type_invariant(&self.codec);
        }
        match msg {
            Ok(data) => {
                if !self.running {
                    let out = Delivery { messages: Vec::new(), ended: None };
                    assert(out@.messages =~= Seq::<Seq<char>>::empty());
                    return out;
                }
                match self.codec.decode(data.as_slice()) {
                    Ok(units) => {
                        let mut messages: Vec<WsMessage> = Vec::new();
                        let mut i: usize = 0;
                        assert(message_views(messages@) =~= unit_texts(
                            units.deep_view().subrange(0, 0),
                        ));
                        while i < units.len()
                            invariant
                                i <= units.len(),
                                message_views(messages@) == unit_texts(
                                    units.deep_view().subrange(0, i as int),
                                ),
                                forall|j: int|
                                    0 <= j < i && valid_utf8(#[trigger] units.deep_view()[j])
                                        ==> messages@[j]@ == decode_utf8(units.deep_view()[j]),
                            decreases units.len() - i,
                        {
                            let ghost sent = message_views(messages@);
                            let text = text_from_bytes(units[i].as_slice());
                            messages.push(WsMessage(text));
                            proof {
                                let all = units.deep_view();
                                assert(all[i as int] =~= units@[i as int]@);
                                assert(text@ == lossy_text(all[i as int]));
                                assert(all.subrange(0, i + 1) =~= all.subrange(0, i as int).push(
                                    all[i as int],
                                ));
                                assert(message_views(messages@) =~= sent.push(text@));
                                assert(unit_texts(all.subrange(0, i + 1)) =~= unit_texts(
                                    all.subrange(0, i as int),
                                ).push(lossy_text(all[i as int])));
                            }
                            i += 1;
                        }
                        assert(units.deep_view().subrange(0, i as int) =~= units.deep_view());
                        Delivery { messages, ended: None }
                    },
                    Err(e) => self.finish(StreamEnd::Undecodable(e)),
                }
            },
            Err(_) => self.finish(StreamEnd::ReadFailed),
        }
    }

    /// The backend closed its stream. A running reader reports so and stops;
    /// bytes of a line that never got its newline are dropped.
    pub fn finished(&mut self) -> (out: Delivery)
        ensures
            final(self)@ == old(self)@.end(StreamEnd::Finished).reader,
            out@ == old(self)@.end(StreamEnd::Finished).delivery,
            final(self)@.codec.wf(),
    {
        self.finish(StreamEnd::Finished)
    }

    /// Stops the reader, as its session does when it closes: from now on it
    /// discards its input.
    pub fn stop(&mut self)
        ensures
            final(self)@ == (ReaderModel { running: false, ..old(self)@ }),
            final(self)@.codec.wf(),
    {
        proof {
            use_type_invariant(&self.codec);
        }
        self.running = false;
    }
}

} // verus!
