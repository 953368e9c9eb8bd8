//! Whole runs of a session and of its reader: what holds of every sequence
//! of events.
use crate::framing::{
    lemma_lines_of_any_chunking, lines, stream, text_on_wire, CodecError, FramingPolicy,
};
use crate::messages::{CloseReasonView, EffectKind, EffectView, EventView, FrameView};
use crate::ws_connection::{
    unit_texts, DeliveryView, Lifecycle, Outcome, ReadError, ReaderModel, ReaderOutcome,
    SessionModel, StreamEnd, CLIENT_TIMEOUT, HEARTBEAT_INTERVAL,
};
use vstd::prelude::*;

verus! {

impl Lifecycle {
    /// How far a session has come: the states in the order in which a
    /// session passes through them.
    pub open spec fn rank(self) -> nat {
        match self {
            Lifecycle::Initializing => 0,
            Lifecycle::Dialing => 1,
            Lifecycle::Active => 2,
            Lifecycle::Closing => 3,
            Lifecycle::Closed => 4,
        }
    }
}

/// A session that was just created is well-formed.
pub proof fn lemma_fresh_is_well_formed(id: u128, now: u64, policy: FramingPolicy)
    ensures
        SessionModel::fresh(id, now, policy).wf(),
{
}

/// Every step keeps a well-formed session well-formed, under the same
/// identifier and policy.
pub proof fn lemma_step_keeps_well_formed(s: SessionModel, event: EventView)
    requires
        s.wf(),
    ensures
        s.step(event).session.wf(),
        s.step(event).session.id == s.id,
        s.step(event).session.policy == s.policy,
{
}

/// A session never goes back: no step leads to an earlier state.
pub proof fn lemma_lifecycle_only_advances(s: SessionModel, event: EventView)
    ensures
        s.state.rank() <= s.step(event).session.state.rank(),
{
}

/// Closed is final: a closed session discards every event. It stays as it
/// is and asks for nothing.
pub proof fn lemma_closed_is_final(s: SessionModel, event: EventView)
    requires
        s.wf(),
        s.state is Closed,
    ensures
        s.step(event) == s.ignore(),
{
    assert(s.queue =~= Seq::<Seq<u8>>::empty());
}

/// A session that has been torn down waits for its context to go and for
/// nothing else: whatever else happens to it, be it a second reason to end,
/// it stays as it is and asks for nothing. So nothing is torn down twice.
pub proof fn lemma_closing_waits_for_its_context(s: SessionModel, event: EventView)
    requires
        s.state is Closing,
        !(event is Stopping),
    ensures
        s.step(event) == s.ignore(),
{
}

/// When its context goes a session is closed, whatever its state was; and
/// it is torn down then exactly if it was still alive.
pub proof fn lemma_stopping_closes(s: SessionModel)
    ensures
        s.stopping().session.state is Closed,
        s.stopping().session.wf(),
        s.alive() ==> s.stopping().effects == s.teardown(None),
        !s.alive() ==> s.stopping().effects == Seq::<EffectView>::empty(),
{
}

/// Whatever ends a session that is alive, the session lets go of all it
/// holds and of nothing else: the WebSocket endpoint and the registry entry
/// in every state, the heartbeat if the session had started, the backend
/// connection and its reader if the relay was live; and it tells its
/// context to stop.
pub proof fn lemma_close_lets_go_of_everything(s: SessionModel, reason: Option<CloseReasonView>)
    requires
        s.alive(),
    ensures
        s.close(reason).session.state is Closing,
        s.close(reason).effects == match s.state {
            Lifecycle::Initializing => seq![
                EffectView::CloseWebSocket(reason),
                EffectView::Deregister { id: s.id },
                EffectView::Stop,
            ],
            Lifecycle::Dialing => seq![
                EffectView::CloseWebSocket(reason),
                EffectView::CancelHeartbeat,
                EffectView::Deregister { id: s.id },
                EffectView::Stop,
            ],
            _ => seq![
                EffectView::CloseWebSocket(reason),
                EffectView::StopReader,
                EffectView::CloseTcp,
                EffectView::CancelHeartbeat,
                EffectView::Deregister { id: s.id },
                EffectView::Stop,
            ],
        },
{
    assert(s.close(reason).effects =~= match s.state {
        Lifecycle::Initializing => seq![
            EffectView::CloseWebSocket(reason),
            EffectView::Deregister { id: s.id },
            EffectView::Stop,
        ],
        Lifecycle::Dialing => seq![
            EffectView::CloseWebSocket(reason),
            EffectView::CancelHeartbeat,
            EffectView::Deregister { id: s.id },
            EffectView::Stop,
        ],
        _ => seq![
            EffectView::CloseWebSocket(reason),
            EffectView::StopReader,
            EffectView::CloseTcp,
            EffectView::CancelHeartbeat,
            EffectView::Deregister { id: s.id },
            EffectView::Stop,
        ],
    });
}

/// A run can be cut anywhere: running `first + second` is running `first`
/// and then `second` from where that led.
pub proof fn lemma_run_in_parts(s: SessionModel, first: Seq<EventView>, second: Seq<EventView>)
    ensures
        s.run(first + second).session == s.run(first).session.run(second).session,
        s.run(first + second).effects == s.run(first).effects + s.run(first).session.run(
            second,
        ).effects,
    decreases second.len(),
{
    let mid = s.run(first).session;
    if second.len() == 0 {
        assert(first + second =~= first);
        assert(s.run(first).effects + mid.run(second).effects =~= s.run(first).effects);
    } else {
        lemma_run_in_parts(s, first, second.drop_last());
        assert((first + second).drop_last() =~= first + second.drop_last());
        assert((first + second).last() == second.last());
        let a = s.run(first).effects;
        let b = mid.run(second.drop_last()).effects;
        let c = mid.run(second.drop_last()).session.step(second.last()).effects;
        assert((a + b) + c =~= a + (b + c));
    }
}

/// Every run keeps a well-formed session well-formed, under the same
/// identifier and policy, and never leads it back to an earlier state.
pub proof fn lemma_run_keeps_well_formed(s: SessionModel, events: Seq<EventView>)
    requires
        s.wf(),
    ensures
        s.run(events).session.wf(),
        s.run(events).session.id == s.id,
        s.run(events).session.policy == s.policy,
        s.state.rank() <= s.run(events).session.state.rank(),
    decreases events.len(),
{
    if events.len() > 0 {
        lemma_run_keeps_well_formed(s, events.drop_last());
        let before = s.run(events.drop_last()).session;
        lemma_step_keeps_well_formed(before, events.last());
        lemma_lifecycle_only_advances(before, events.last());
    }
}

/// The payloads of the writes to the backend among `effects`, in order.
pub open spec fn writes(effects: Seq<EffectView>) -> Seq<Seq<u8>>
    decreases effects.len(),
{
    if effects.len() == 0 {
        Seq::empty()
    } else {
        match effects.last() {
            EffectView::WriteTcp(bytes) => writes(effects.drop_last()).push(bytes),
            _ => writes(effects.drop_last()),
        }
    }
}

/// The texts of the frames sent to the peer among `effects`, in order.
pub open spec fn texts_sent(effects: Seq<EffectView>) -> Seq<Seq<char>>
    decreases effects.len(),
{
    if effects.len() == 0 {
        Seq::empty()
    } else {
        match effects.last() {
            EffectView::SendText(text) => texts_sent(effects.drop_last()).push(text),
            _ => texts_sent(effects.drop_last()),
        }
    }
}

/// What the binary and text frames among `events` are on the wire to the
/// backend, frame by frame and in order: a binary payload as it is, a text
/// as `text_on_wire` has it.
pub open spec fn payloads(policy: FramingPolicy, events: Seq<EventView>) -> Seq<Seq<u8>>
    decreases events.len(),
{
    if events.len() == 0 {
        Seq::empty()
    } else {
        match events.last() {
            EventView::Frame { frame: FrameView::Binary(bytes), .. } => payloads(
                policy,
                events.drop_last(),
            ).push(bytes),
            EventView::Frame { frame: FrameView::Text(text), .. } => payloads(
                policy,
                events.drop_last(),
            ).push(text_on_wire(policy, text)),
            _ => payloads(policy, events.drop_last()),
        }
    }
}

/// The units that the reader handed over among `events`, in order.
pub open spec fn relayed(events: Seq<EventView>) -> Seq<Seq<char>>
    decreases events.len(),
{
    if events.len() == 0 {
        Seq::empty()
    } else {
        match events.last() {
            EventView::Relay(text) => relayed(events.drop_last()).push(text),
            _ => relayed(events.drop_last()),
        }
    }
}

/// Whether the peer gives no sign of life in `events`: no ping and no pong.
pub open spec fn silent(events: Seq<EventView>) -> bool {
    forall|i: int|
        0 <= i < events.len() ==> match #[trigger] events[i] {
            EventView::Frame { frame: FrameView::Ping(_), .. } => false,
            EventView::Frame { frame: FrameView::Pong(_), .. } => false,
            _ => true,
        }
}

proof fn lemma_writes_of_parts(a: Seq<EffectView>, b: Seq<EffectView>)
    ensures
        writes(a + b) == writes(a) + writes(b),
    decreases b.len(),
{
    if b.len() == 0 {
        assert(a + b =~= a);
        assert(writes(a) + writes(b) =~= writes(a));
    } else {
        lemma_writes_of_parts(a, b.drop_last());
        assert((a + b).drop_last() =~= a + b.drop_last());
        assert((a + b).last() == b.last());
        assert(writes(a + b) =~= writes(a) + writes(b));
    }
}

proof fn lemma_texts_of_parts(a: Seq<EffectView>, b: Seq<EffectView>)
    ensures
        texts_sent(a + b) == texts_sent(a) + texts_sent(b),
    decreases b.len(),
{
    if b.len() == 0 {
        assert(a + b =~= a);
        assert(texts_sent(a) + texts_sent(b) =~= texts_sent(a));
    } else {
        lemma_texts_of_parts(a, b.drop_last());
        assert((a + b).drop_last() =~= a + b.drop_last());
        assert((a + b).last() == b.last());
        assert(texts_sent(a + b) =~= texts_sent(a) + texts_sent(b));
    }
}

/// A session that is active after a run was active all along.
pub proof fn lemma_active_all_along(s: SessionModel, events: Seq<EventView>)
    requires
        s.wf(),
        s.state is Active,
        s.run(events).session.state is Active,
        events.len() > 0,
    ensures
        s.run(events.drop_last()).session.state is Active,
        s.run(events.drop_last()).session.wf(),
        s.run(events.drop_last()).session.policy == s.policy,
{
    lemma_run_keeps_well_formed(s, events.drop_last());
    lemma_lifecycle_only_advances(s.run(events.drop_last()).session, events.last());
}

/// What `event` is on the wire to the backend, if it is a binary or text
/// frame.
pub open spec fn payload(policy: FramingPolicy, event: EventView) -> Option<Seq<u8>> {
    match event {
        EventView::Frame { frame: FrameView::Binary(bytes), .. } => Some(bytes),
        EventView::Frame { frame: FrameView::Text(text), .. } => Some(text_on_wire(policy, text)),
        _ => None,
    }
}

proof fn lemma_step_sends_or_queues(s: SessionModel, event: EventView)
    requires
        s.wf(),
        s.state is Active,
        s.step(event).session.state is Active,
    ensures
        writes(s.step(event).effects) + s.step(event).session.queue == s.queue + match payload(
            s.policy,
            event,
        ) {
            Some(bytes) => seq![bytes],
            None => Seq::empty(),
        },
{
    let out = s.step(event);
    let due = match payload(s.policy, event) {
        Some(bytes) => seq![bytes],
        None => Seq::<Seq<u8>>::empty(),
    };
    reveal_with_fuel(writes, 2);
    if out.effects.len() == 0 {
        assert(writes(out.effects) + out.session.queue =~= s.queue + due);
    } else {
        assert(out.effects.len() == 1);
        assert(out.effects.drop_last() =~= Seq::<EffectView>::empty());
        match out.effects[0] {
            EffectView::WriteTcp(bytes) => {
                assert(writes(out.effects) =~= seq![bytes]);
                assert(writes(out.effects) + out.session.queue =~= s.queue + due);
            },
            _ => {
                assert(writes(out.effects) =~= Seq::<Seq<u8>>::empty());
                assert(writes(out.effects) + out.session.queue =~= s.queue + due);
            },
        }
    }
}

/// While a session is active the backend is sent what the peer sent, and in
/// the same order.
///
/// Take any run that leaves an active session active, whatever else happens
/// in it. The payloads of its binary and text frames, a text followed by a
/// newline under the line-delimited policy, come after the payloads that
/// waited before; and that sequence is what the session has asked to be
/// written, one write for each payload, followed by what waits now. Nothing
/// is written twice, left out, or out of order.
pub proof fn lemma_backend_is_sent_every_frame(s: SessionModel, events: Seq<EventView>)
    requires
        s.wf(),
        s.state is Active,
        s.run(events).session.state is Active,
    ensures
        writes(s.run(events).effects) + s.run(events).session.queue == s.queue + payloads(
            s.policy,
            events,
        ),
    decreases events.len(),
{
    if events.len() == 0 {
        assert(writes(s.run(events).effects) + s.queue =~= s.queue + payloads(s.policy, events));
    } else {
        let front = events.drop_last();
        lemma_active_all_along(s, events);
        lemma_backend_is_sent_every_frame(s, front);
        let before = s.run(front);
        let last = before.session.step(events.last());
        lemma_writes_of_parts(before.effects, last.effects);
        lemma_step_sends_or_queues(before.session, events.last());
        let due = match payload(s.policy, events.last()) {
            Some(bytes) => seq![bytes],
            None => Seq::<Seq<u8>>::empty(),
        };
        assert(payloads(s.policy, events) =~= payloads(s.policy, front) + due);
        assert(writes(s.run(events).effects) + s.run(events).session.queue =~= writes(
            before.effects,
        ) + (writes(last.effects) + last.session.queue));
        assert(writes(before.effects) + (before.session.queue + due) =~= (writes(before.effects)
            + before.session.queue) + due);
        assert((s.queue + payloads(s.policy, front)) + due =~= s.queue + (payloads(
            s.policy,
            front,
        ) + due));
    }
}

/// How many of `events` report that a write is done.
pub open spec fn completions(events: Seq<EventView>) -> nat
    decreases events.len(),
{
    if events.len() == 0 {
        0
    } else if events.last() is WriteCompleted {
        completions(events.drop_last()) + 1
    } else {
        completions(events.drop_last())
    }
}

/// While a write is under way no other is asked for: what is due to the
/// backend meanwhile waits, and only the news that the write is done lets
/// the next one begin. No step asks for more than one write.
pub proof fn lemma_no_write_while_one_is_under_way(s: SessionModel, event: EventView)
    ensures
        count(s.step(event).effects, EffectKind::WriteTcp) <= 1,
        s.writing && !(event is WriteCompleted) ==> count(
            s.step(event).effects,
            EffectKind::WriteTcp,
        ) == 0,
{
    lemma_count_of_step(s, Seq::empty(), event, EffectKind::WriteTcp);
}

/// Writes to the backend are one at a time: from the creation of a session
/// through any events at all, the writes asked for are at most one more
/// than the writes reported done. While the session is active and no write
/// is under way, they are no more than the writes reported done; and before
/// the relay is live no write is asked for at all.
pub proof fn lemma_one_write_at_a_time(
    id: u128,
    now: u64,
    policy: FramingPolicy,
    events: Seq<EventView>,
)
    ensures
        count(SessionModel::fresh(id, now, policy).run(events).effects, EffectKind::WriteTcp)
            <= completions(events) + 1,
        SessionModel::fresh(id, now, policy).run(events).session.state is Active ==> count(
            SessionModel::fresh(id, now, policy).run(events).effects,
            EffectKind::WriteTcp,
        ) <= completions(events) + held(
            SessionModel::fresh(id, now, policy).run(events).session.writing,
        ),
        SessionModel::fresh(id, now, policy).run(events).session.state.rank() < 2 ==> count(
            SessionModel::fresh(id, now, policy).run(events).effects,
            EffectKind::WriteTcp,
        ) == 0,
    decreases events.len(),
{
    let s = SessionModel::fresh(id, now, policy);
    if events.len() > 0 {
        let front = events.drop_last();
        lemma_one_write_at_a_time(id, now, policy, front);
        lemma_run_keeps_well_formed(s, front);
        lemma_count_of_step(
            s.run(front).session,
            s.run(front).effects,
            events.last(),
            EffectKind::WriteTcp,
        );
    }
}

/// While a session is active the peer is sent every unit that the reader
/// hands over, as one text frame each, unchanged and in the same order,
/// whatever else happens in a run that leaves the session active.
pub proof fn lemma_peer_is_sent_every_unit(s: SessionModel, events: Seq<EventView>)
    requires
        s.wf(),
        s.state is Active,
        s.run(events).session.state is Active,
    ensures
        texts_sent(s.run(events).effects) == relayed(events),
    decreases events.len(),
{
    if events.len() > 0 {
        let front = events.drop_last();
        lemma_active_all_along(s, events);
        lemma_peer_is_sent_every_unit(s, front);
        let before = s.run(front);
        let last = before.session.step(events.last());
        lemma_texts_of_parts(before.effects, last.effects);
        reveal_with_fuel(texts_sent, 3);
        assert(texts_sent(last.effects) =~= relayed(events).skip(relayed(front).len() as int));
        assert(texts_sent(s.run(events).effects) =~= relayed(events));
    }
}

/// Without a ping or a pong the time of the last sign of life stays what it
/// was.
pub proof fn lemma_silence_leaves_heartbeat(s: SessionModel, events: Seq<EventView>)
    requires
        silent(events),
    ensures
        s.run(events).session.hb == s.hb,
    decreases events.len(),
{
    if events.len() > 0 {
        let front = events.drop_last();
        assert forall|i: int| 0 <= i < front.len() implies match #[trigger] front[i] {
            EventView::Frame { frame: FrameView::Ping(_), .. } => false,
            EventView::Frame { frame: FrameView::Pong(_), .. } => false,
            _ => true,
        } by {
            assert(front[i] == events[i]);
        }
        lemma_silence_leaves_heartbeat(s, front);
        assert(events.last() == events[events.len() - 1]);
    }
}

/// A peer that stays silent is given up by the first tick after its
/// deadline, which comes within one heartbeat interval of the deadline.
///
/// Let the last sign of life be at `s.hb`, so that the deadline is
/// `CLIENT_TIMEOUT` later. If the tick at `earlier` came no later than the
/// deadline, the next tick, at `later`, comes after it and at most one
/// interval after `earlier`, and the peer gives no sign of life in between,
/// then the earlier tick left the session alive and had it ping the peer,
/// the session is not alive any more after the later tick, and `later` is
/// at most `HEARTBEAT_INTERVAL` past the deadline.
pub proof fn lemma_silent_peer_is_given_up(
    s: SessionModel,
    earlier: u64,
    between: Seq<EventView>,
    later: u64,
)
    requires
        s.alive(),
        earlier - s.hb <= CLIENT_TIMEOUT,
        later - s.hb > CLIENT_TIMEOUT,
        later - earlier <= HEARTBEAT_INTERVAL,
        silent(between),
    ensures
        s.step(EventView::Tick { now: earlier }) == (Outcome {
            session: s,
            effects: seq![EffectView::Ping],
        }),
        !s.run(
            seq![EventView::Tick { now: earlier }] + between + seq![
                EventView::Tick { now: later },
            ],
        ).session.alive(),
        later - s.hb <= CLIENT_TIMEOUT + HEARTBEAT_INTERVAL,
{
    let first = seq![EventView::Tick { now: earlier }];
    let last = seq![EventView::Tick { now: later }];
    assert(first.drop_last() =~= Seq::<EventView>::empty());
    assert(s.run(first).session == s) by {
        reveal_with_fuel(SessionModel::run, 2);
    }
    lemma_run_in_parts(s, first, between);
    lemma_silence_leaves_heartbeat(s, between);
    let mid = s.run(first + between).session;
    assert(mid.hb == s.hb);
    lemma_run_in_parts(s, first + between, last);
    assert(last.drop_last() =~= Seq::<EventView>::empty());
    assert(mid.run(last).session == mid.step(EventView::Tick { now: later }).session) by {
        reveal_with_fuel(SessionModel::run, 2);
    }
}

/// A tick after the deadline ends a session that is alive, at once and
/// without a reason given to the peer; and nothing that happens later, a
/// sign of life included, brings it back.
pub proof fn lemma_timeout_is_fatal(s: SessionModel, now: u64, after: Seq<EventView>)
    requires
        s.wf(),
        s.alive(),
        s.expired(now),
    ensures
        s.hb(now) == s.close(None),
        s.hb(now).session.state is Closing,
        !s.hb(now).session.run(after).session.alive(),
{
    lemma_run_keeps_well_formed(s.hb(now).session, after);
}

/// How many of `effects` are of the kind `kind`.
pub open spec fn count(effects: Seq<EffectView>, kind: EffectKind) -> nat
    decreases effects.len(),
{
    if effects.len() == 0 {
        0
    } else if effects.last().kind() == kind {
        count(effects.drop_last(), kind) + 1
    } else {
        count(effects.drop_last(), kind)
    }
}

/// One for what holds, none for what does not.
pub open spec fn held(flag: bool) -> nat {
    if flag {
        1
    } else {
        0
    }
}

/// Whether the effects asked for so far account for what a session in the
/// state of `s` holds: all that was opened and is not held any more was
/// closed, once, and nothing else was.
pub open spec fn balanced(s: SessionModel, effects: Seq<EffectView>) -> bool {
    &&& count(effects, EffectKind::Register) <= 1
    &&& (s.state is Initializing ==> count(effects, EffectKind::Register) == 0)
    &&& count(effects, EffectKind::StartHeartbeat) == count(effects, EffectKind::Register)
    &&& count(effects, EffectKind::Dial) == count(effects, EffectKind::Register)
    &&& count(effects, EffectKind::SpawnReader) <= count(effects, EffectKind::Dial)
    &&& (s.state is Dialing ==> count(effects, EffectKind::SpawnReader) == 0)
    &&& count(effects, EffectKind::Stop) <= 1
    &&& (s.alive() ==> count(effects, EffectKind::Stop) == 0)
    &&& count(effects, EffectKind::CloseWebSocket) + held(s.alive()) == 1
    &&& count(effects, EffectKind::CloseTcp) + held(s.state is Active) == count(
        effects,
        EffectKind::SpawnReader,
    )
    &&& count(effects, EffectKind::StopReader) == count(effects, EffectKind::CloseTcp)
    &&& count(effects, EffectKind::CancelHeartbeat) + held(
        s.state is Dialing || s.state is Active,
    ) == count(effects, EffectKind::StartHeartbeat)
    &&& count(effects, EffectKind::Deregister) + held(s.alive()) == 1
}

proof fn lemma_count_of_parts(a: Seq<EffectView>, b: Seq<EffectView>, kind: EffectKind)
    ensures
        count(a + b, kind) == count(a, kind) + count(b, kind),
    decreases b.len(),
{
    if b.len() == 0 {
        assert(a + b =~= a);
    } else {
        lemma_count_of_parts(a, b.drop_last(), kind);
        assert((a + b).drop_last() =~= a + b.drop_last());
        assert((a + b).last() == b.last());
    }
}

proof fn lemma_count_of_teardown(
    s: SessionModel,
    reason: Option<CloseReasonView>,
    kind: EffectKind,
)
    ensures
        count(s.teardown(reason), kind) == held(
            kind is CloseWebSocket || kind is Deregister || ((kind is StopReader || kind
                is CloseTcp) && s.state is Active) || (kind is CancelHeartbeat && (s.state
                is Dialing || s.state is Active)),
        ),
        count(s.teardown(reason).push(EffectView::Stop), kind) == count(s.teardown(reason), kind)
            + held(kind is Stop),
{
    let ws = seq![EffectView::CloseWebSocket(reason)];
    let tcp = if s.state is Active {
        seq![EffectView::StopReader, EffectView::CloseTcp]
    } else {
        Seq::empty()
    };
    let timer = if s.state is Dialing || s.state is Active {
        seq![EffectView::CancelHeartbeat]
    } else {
        Seq::empty()
    };
    let entry = seq![EffectView::Deregister { id: s.id }];
    reveal_with_fuel(count, 3);
    lemma_count_of_parts(ws, tcp, kind);
    lemma_count_of_parts(ws + tcp, timer, kind);
    lemma_count_of_parts(ws + tcp + timer, entry, kind);
    assert(s.teardown(reason).push(EffectView::Stop).drop_last() =~= s.teardown(reason));
}

proof fn lemma_count_of_step(
    s: SessionModel,
    effects: Seq<EffectView>,
    event: EventView,
    kind: EffectKind,
)
    ensures
        count(effects + s.step(event).effects, kind) == count(effects, kind) + count(
            s.step(event).effects,
            kind,
        ),
        s.step(event).effects.len() == 0 ==> count(s.step(event).effects, kind) == 0,
        s.step(event).effects.len() == 1 ==> count(s.step(event).effects, kind) == held(
            s.step(event).effects[0].kind() == kind,
        ),
        s.step(event).effects.len() == 3 && s.step(event).effects[0] is StartHeartbeat ==> count(
            s.step(event).effects,
            kind,
        ) == held(kind is StartHeartbeat || kind is Register || kind is Dial),
        s.step(event).effects.len() >= 2 && s.step(event).effects[0] is CloseWebSocket ==> {
            &&& s.alive()
            &&& count(s.step(event).effects, kind) == held(
                kind is CloseWebSocket || kind is Deregister || ((kind is StopReader || kind
                    is CloseTcp) && s.state is Active) || (kind is CancelHeartbeat && (s.state
                    is Dialing || s.state is Active)) || (kind is Stop && !(event is Stopping)),
            )
        },
        s.step(event).effects.len() <= 1 || s.step(event).effects[0] is StartHeartbeat
            || s.step(event).effects[0] is CloseWebSocket,
        s.step(event).effects.len() > 1 && s.step(event).effects[0] is StartHeartbeat
            ==> s.step(event).effects.len() == 3,
{
    let out = s.step(event).effects;
    lemma_count_of_parts(effects, out, kind);
    if out.len() <= 1 {
        reveal_with_fuel(count, 2);
    } else if out[0] is StartHeartbeat {
        reveal_with_fuel(count, 4);
    } else {
        if event is Stopping {
            lemma_count_of_teardown(s, None, kind);
        } else {
            let reason = out[0]->CloseWebSocket_0;
            assert(out == s.teardown(reason).push(EffectView::Stop));
            lemma_count_of_teardown(s, reason, kind);
        }
    }
}

/// Every step keeps the books: if the effects so far account for what a
/// session holds, they still do with the effects of one more step.
pub proof fn lemma_step_keeps_balance(
    s: SessionModel,
    effects: Seq<EffectView>,
    event: EventView,
)
    requires
        balanced(s, effects),
    ensures
        balanced(s.step(event).session, effects + s.step(event).effects),
{
    lemma_count_of_step(s, effects, event, EffectKind::Register);
    lemma_count_of_step(s, effects, event, EffectKind::StartHeartbeat);
    lemma_count_of_step(s, effects, event, EffectKind::Dial);
    lemma_count_of_step(s, effects, event, EffectKind::SpawnReader);
    lemma_count_of_step(s, effects, event, EffectKind::Stop);
    lemma_count_of_step(s, effects, event, EffectKind::CloseWebSocket);
    lemma_count_of_step(s, effects, event, EffectKind::CloseTcp);
    lemma_count_of_step(s, effects, event, EffectKind::StopReader);
    lemma_count_of_step(s, effects, event, EffectKind::Deregister);
    lemma_count_of_step(s, effects, event, EffectKind::CancelHeartbeat);
}

/// Nothing is closed twice and nothing is left open.
///
/// Take a session from its creation through any events at all. It was
/// registered at most once, and dialed and given a heartbeat exactly then;
/// a reader was started at most once; its context was told to stop at most
/// once. As long as the session is alive, its WebSocket endpoint was not
/// closed and it was not taken out of the registry; once it is not alive
/// any more, each of the two has happened exactly once. The backend
/// connection and its reader were closed once if a reader was started and
/// the session is not active any more, and the heartbeat was cancelled once
/// if it was started and the session is not alive any more; else they were
/// not.
pub proof fn lemma_nothing_is_closed_twice(
    id: u128,
    now: u64,
    policy: FramingPolicy,
    events: Seq<EventView>,
)
    ensures
        balanced(
            SessionModel::fresh(id, now, policy).run(events).session,
            SessionModel::fresh(id, now, policy).run(events).effects,
        ),
        !SessionModel::fresh(id, now, policy).run(events).session.alive() ==> {
            let effects = SessionModel::fresh(id, now, policy).run(events).effects;
            &&& count(effects, EffectKind::CloseWebSocket) == 1
            &&& count(effects, EffectKind::Deregister) == 1
            &&& count(effects, EffectKind::CloseTcp) == count(effects, EffectKind::SpawnReader)
            &&& count(effects, EffectKind::StopReader) == count(effects, EffectKind::SpawnReader)
            &&& count(effects, EffectKind::CancelHeartbeat) == count(
                effects,
                EffectKind::StartHeartbeat,
            )
            &&& count(effects, EffectKind::SpawnReader) <= 1
            &&& count(effects, EffectKind::StartHeartbeat) <= 1
        },
    decreases events.len(),
{
    let s = SessionModel::fresh(id, now, policy);
    if events.len() > 0 {
        let front = events.drop_last();
        lemma_nothing_is_closed_twice(id, now, policy, front);
        lemma_step_keeps_balance(s.run(front).session, s.run(front).effects, events.last());
    }
}

/// The registry once the registrations and deregistrations among `effects`
/// have been carried out in order, each registration with `handle`.
pub open spec fn registry_after<H>(
    sessions: Map<u128, H>,
    effects: Seq<EffectView>,
    handle: H,
) -> Map<u128, H>
    decreases effects.len(),
{
    if effects.len() == 0 {
        sessions
    } else {
        let before = registry_after(sessions, effects.drop_last(), handle);
        match effects.last() {
            EffectView::Register { id } => before.insert(id, handle),
            EffectView::Deregister { id } => before.remove(id),
            _ => before,
        }
    }
}

proof fn lemma_registry_after_parts<H>(
    sessions: Map<u128, H>,
    a: Seq<EffectView>,
    b: Seq<EffectView>,
    handle: H,
)
    ensures
        registry_after(sessions, a + b, handle) == registry_after(
            registry_after(sessions, a, handle),
            b,
            handle,
        ),
    decreases b.len(),
{
    if b.len() == 0 {
        assert(a + b =~= a);
    } else {
        lemma_registry_after_parts(sessions, a, b.drop_last(), handle);
        assert((a + b).drop_last() =~= a + b.drop_last());
        assert((a + b).last() == b.last());
    }
}

proof fn lemma_registry_after_step<H>(
    sessions: Map<u128, H>,
    s: SessionModel,
    event: EventView,
    handle: H,
)
    ensures
        registry_after(sessions, s.step(event).effects, handle) == if s.state is Initializing
            && event is Started {
            sessions.insert(s.id, handle)
        } else if s.alive() && !s.step(event).session.alive() {
            sessions.remove(s.id)
        } else {
            sessions
        },
{
    let out = s.step(event).effects;
    if out.len() <= 1 {
        reveal_with_fuel(registry_after, 2);
    } else if out[0] is StartHeartbeat {
        reveal_with_fuel(registry_after, 4);
    } else {
        let reason = out[0]->CloseWebSocket_0;
        let ws = seq![EffectView::CloseWebSocket(reason)];
        let tcp = if s.state is Active {
            seq![EffectView::StopReader, EffectView::CloseTcp]
        } else {
            Seq::empty()
        };
        let timer = if s.state is Dialing || s.state is Active {
            seq![EffectView::CancelHeartbeat]
        } else {
            Seq::empty()
        };
        let entry = seq![EffectView::Deregister { id: s.id }];
        let stop = if event is Stopping {
            Seq::empty()
        } else {
            seq![EffectView::Stop]
        };
        assert(out =~= ws + tcp + timer + entry + stop);
        reveal_with_fuel(registry_after, 3);
        lemma_registry_after_parts(sessions, ws, tcp, handle);
        lemma_registry_after_parts(sessions, ws + tcp, timer, handle);
        lemma_registry_after_parts(sessions, ws + tcp + timer, entry, handle);
        lemma_registry_after_parts(sessions, ws + tcp + timer + entry, stop, handle);
    }
}

/// A session is in the registry while it relays or dials, and not when it
/// is gone; and it touches no entry but its own.
///
/// Take a session from its creation through any events at all, and carry
/// out in a registry what it asks of the registry. Afterwards the registry
/// holds the session's entry if the session is dialing or active, holds no
/// such entry if the session is not alive any more, and holds whatever it
/// held under every other identifier.
pub proof fn lemma_registry_follows_the_session<H>(
    sessions: Map<u128, H>,
    id: u128,
    now: u64,
    policy: FramingPolicy,
    events: Seq<EventView>,
    handle: H,
)
    ensures
        ({
            let out = SessionModel::fresh(id, now, policy).run(events);
            let after = registry_after(sessions, out.effects, handle);
            &&& out.session.state is Initializing ==> after == sessions
            &&& out.session.state is Dialing || out.session.state is Active ==> after
                == sessions.insert(id, handle)
            &&& !out.session.alive() ==> after == sessions.remove(id)
        }),
    decreases events.len(),
{
    let s = SessionModel::fresh(id, now, policy);
    if events.len() > 0 {
        let front = events.drop_last();
        lemma_registry_follows_the_session(sessions, id, now, policy, front, handle);
        lemma_run_keeps_well_formed(s, front);
        let before = s.run(front);
        let mid = registry_after(sessions, before.effects, handle);
        lemma_registry_after_parts(
            sessions,
            before.effects,
            before.session.step(events.last()).effects,
            handle,
        );
        lemma_registry_after_step(mid, before.session, events.last(), handle);
        lemma_lifecycle_only_advances(before.session, events.last());
        assert(sessions.insert(id, handle).remove(id) =~= sessions.remove(id));
        assert(sessions.remove(id).remove(id) =~= sessions.remove(id));
    }
}

/// The events by which a reader's messages reach its session.
pub open spec fn relays(texts: Seq<Seq<char>>) -> Seq<EventView> {
    texts.map_values(|text: Seq<char>| EventView::Relay(text))
}

/// One text frame to the peer for each of `texts`.
pub open spec fn text_frames(texts: Seq<Seq<char>>) -> Seq<EffectView> {
    texts.map_values(|text: Seq<char>| EffectView::SendText(text))
}

/// An active session that is handed units sends each to the peer as one
/// text frame: it stays as it is and asks for as many frames as there are
/// units, each the unit itself, in the same order, and for nothing besides.
pub proof fn lemma_units_become_text_frames(s: SessionModel, texts: Seq<Seq<char>>)
    requires
        s.state is Active,
    ensures
        s.run(relays(texts)) == (Outcome { session: s, effects: text_frames(texts) }),
    decreases texts.len(),
{
    if texts.len() == 0 {
        assert(text_frames(texts) =~= Seq::<EffectView>::empty());
    } else {
        lemma_units_become_text_frames(s, texts.drop_last());
        assert(relays(texts).drop_last() =~= relays(texts.drop_last()));
        assert(s.run(relays(texts)).effects =~= text_frames(texts));
    }
}

impl ReaderModel {
    /// What a reader comes to when the backend connection yields `chunks`
    /// one after the other: the reader after the last, all messages in the
    /// order of their delivery, and why the reader stopped, if it did.
    pub open spec fn run(self, chunks: Seq<Seq<u8>>) -> ReaderOutcome
        decreases chunks.len(),
    {
        if chunks.len() == 0 {
            self.ignore()
        } else {
            let before = self.run(chunks.drop_last());
            let last = before.reader.handle(Ok(chunks.last()));
            ReaderOutcome {
                reader: last.reader,
                delivery: DeliveryView {
                    messages: before.delivery.messages + last.delivery.messages,
                    ended: if before.delivery.ended is Some {
                        before.delivery.ended
                    } else {
                        last.delivery.ended
                    },
                },
            }
        }
    }
}

/// A running reader delivers what its codec decodes: as long as the codec
/// takes each chunk, the reader keeps running, and its messages are the
/// texts of the units that the chunks complete, one message for each unit,
/// in the order in which they were decoded.
pub proof fn lemma_reader_delivers_every_unit(r: ReaderModel, chunks: Seq<Seq<u8>>)
    requires
        r.running,
        r.codec.accepts_all(chunks),
    ensures
        r.run(chunks).reader == (ReaderModel { codec: r.codec.after_all(chunks), running: true }),
        r.run(chunks).delivery.ended is None,
        r.run(chunks).delivery.messages == unit_texts(r.codec.units_of_all(chunks)),
        r.run(chunks).delivery.messages.len() == r.codec.units_of_all(chunks).len(),
    decreases chunks.len(),
{
    if chunks.len() == 0 {
        assert(unit_texts(r.codec.units_of_all(chunks)) =~= Seq::<Seq<char>>::empty());
    } else {
        let front = chunks.drop_last();
        lemma_reader_delivers_every_unit(r, front);
        assert(unit_texts(r.codec.units_of_all(chunks)) =~= unit_texts(
            r.codec.units_of_all(front),
        ) + unit_texts(r.codec.after_all(front).units(chunks.last())));
    }
}

/// A reader whose codec refuses a chunk reports that the stream cannot be
/// decoded, stops, and stays stopped.
pub proof fn lemma_reader_stops_at_a_refused_chunk(r: ReaderModel, chunks: Seq<Seq<u8>>)
    requires
        r.running,
        !r.codec.accepts_all(chunks),
    ensures
        !r.run(chunks).reader.running,
        r.run(chunks).delivery.ended == Some(StreamEnd::Undecodable(CodecError::LineTooLong)),
    decreases chunks.len(),
{
    if chunks.len() > 0 {
        let front = chunks.drop_last();
        if r.codec.accepts_all(front) {
            lemma_reader_delivers_every_unit(r, front);
        } else {
            lemma_reader_stops_at_a_refused_chunk(r, front);
        }
    }
}

/// From the backend's stream to the peer: when the chunks that the backend
/// connection yields decode into N units, an active session that is handed
/// what its reader delivers sends the peer exactly N text frames, the i-th
/// being the text of the i-th unit, and stays as it is.
pub proof fn lemma_stream_reaches_peer(r: ReaderModel, s: SessionModel, chunks: Seq<Seq<u8>>)
    requires
        r.running,
        r.codec.accepts_all(chunks),
        s.state is Active,
    ensures
        s.run(relays(r.run(chunks).delivery.messages)) == (Outcome {
            session: s,
            effects: text_frames(unit_texts(r.codec.units_of_all(chunks))),
        }),
        text_frames(unit_texts(r.codec.units_of_all(chunks))).len() == r.codec.units_of_all(
            chunks,
        ).len(),
{
    lemma_reader_delivers_every_unit(r, chunks);
    lemma_units_become_text_frames(s, r.run(chunks).delivery.messages);
}

/// The same for lines: under the line-delimited policy, when the stream
/// that `chunks` bring stays within the limit and holds N complete lines
/// behind the bytes that the reader held back, the peer is sent exactly N
/// text frames, the i-th being the text of the i-th line, wherever the
/// stream was split into chunks.
pub proof fn lemma_lines_reach_peer(r: ReaderModel, s: SessionModel, chunks: Seq<Seq<u8>>)
    requires
        r.running,
        r.codec.wf(),
        r.codec.policy == FramingPolicy::LineDelimited,
        r.codec.accepts(stream(chunks)),
        s.state is Active,
    ensures
        s.run(relays(r.run(chunks).delivery.messages)) == (Outcome {
            session: s,
            effects: text_frames(unit_texts(lines(r.codec.pending + stream(chunks)))),
        }),
        text_frames(unit_texts(lines(r.codec.pending + stream(chunks)))).len() == lines(
            r.codec.pending + stream(chunks),
        ).len(),
{
    lemma_lines_of_any_chunking(r.codec, chunks);
    lemma_stream_reaches_peer(r, s, chunks);
}

/// A reader that has stopped stays stopped and delivers nothing, whatever
/// the backend connection still yields.
pub proof fn lemma_stopped_reader_discards(r: ReaderModel, msg: Result<Seq<u8>, ReadError>)
    requires
        !r.running,
    ensures
        r.handle(msg) == r.ignore(),
{
}

} // verus!
