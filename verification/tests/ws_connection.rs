use ws_bridge::framing::FramingPolicy;
use ws_bridge::messages::{
    CloseReason, Effect, Event, Frame, WsMessage, CLOSE_INTERNAL_ERROR, CLOSE_NORMAL,
};
use ws_bridge::ws_connection::{Lifecycle, WsConn, CLIENT_TIMEOUT, HEARTBEAT_INTERVAL};

const ID: u128 = 0x1234_5678_9abc_4def_8123_4567_89ab_cdef;

fn dialing(policy: FramingPolicy) -> WsConn {
    let mut conn = WsConn::with_id(ID, 100, policy);
    conn.started();
    conn
}

fn active(policy: FramingPolicy) -> WsConn {
    let mut conn = dialing(policy);
    conn.dial_succeeded();
    conn
}

fn full_teardown(reason: Option<CloseReason>) -> Vec<Effect> {
    vec![
        Effect::CloseWebSocket(reason),
        Effect::StopReader,
        Effect::CloseTcp,
        Effect::CancelHeartbeat,
        Effect::Deregister { id: ID },
        Effect::Stop,
    ]
}

#[test]
fn the_heartbeat_constants_are_five_and_ten() {
    assert_eq!(HEARTBEAT_INTERVAL, 5);
    assert_eq!(CLIENT_TIMEOUT, 10);
    assert_eq!(CLOSE_NORMAL, 1000);
    assert_eq!(CLOSE_INTERNAL_ERROR, 1011);
}

#[test]
fn a_new_session_is_initializing() {
    let conn = WsConn::with_id(ID, 42, FramingPolicy::RawChunk);
    assert_eq!(conn.id(), ID);
    assert_eq!(conn.state(), Lifecycle::Initializing);
    assert_eq!(conn.last_heartbeat(), 42);
    assert_eq!(conn.policy(), FramingPolicy::RawChunk);
    assert!(conn.is_alive());
    assert!(!conn.is_writing());
    assert_eq!(conn.queued(), 0);
}

#[test]
fn minted_identifiers_are_random_version_four() {
    let a = WsConn::new(1, FramingPolicy::LineDelimited);
    let b = WsConn::new(1, FramingPolicy::LineDelimited);
    for conn in [&a, &b] {
        assert_eq!((conn.id() >> 76) & 0xf, 4);
        assert_eq!((conn.id() >> 62) & 0x3, 2);
        assert_eq!(conn.state(), Lifecycle::Initializing);
        assert_eq!(conn.last_heartbeat(), 1);
        assert_eq!(conn.policy(), FramingPolicy::LineDelimited);
    }
    assert_ne!(a.id(), b.id());
}

#[test]
fn starting_registers_and_dials() {
    let mut conn = WsConn::with_id(ID, 100, FramingPolicy::LineDelimited);
    assert_eq!(
        conn.started(),
        vec![
            Effect::StartHeartbeat { interval: 5 },
            Effect::Register { id: ID },
            Effect::Dial,
        ]
    );
    assert_eq!(conn.state(), Lifecycle::Dialing);
    assert_eq!(conn.started(), vec![]);
    assert_eq!(conn.state(), Lifecycle::Dialing);
}

#[test]
fn a_successful_dial_makes_the_session_active() {
    let mut conn = dialing(FramingPolicy::LineDelimited);
    assert_eq!(conn.dial_succeeded(), vec![Effect::SpawnReader]);
    assert_eq!(conn.state(), Lifecycle::Active);
    assert_eq!(conn.dial_succeeded(), vec![]);
    assert_eq!(conn.dial_failed(), vec![]);
    assert_eq!(conn.state(), Lifecycle::Active);
}

#[test]
fn a_dial_result_before_the_dial_is_ignored() {
    let mut conn = WsConn::with_id(ID, 100, FramingPolicy::LineDelimited);
    assert_eq!(conn.dial_succeeded(), vec![]);
    assert_eq!(conn.dial_failed(), vec![]);
    assert_eq!(conn.state(), Lifecycle::Initializing);
}

#[test]
fn a_failed_dial_closes_the_peer_with_a_server_error() {
    let mut conn = dialing(FramingPolicy::LineDelimited);
    assert_eq!(
        conn.dial_failed(),
        vec![
            Effect::CloseWebSocket(Some(CloseReason { code: 1011, description: None })),
            Effect::CancelHeartbeat,
            Effect::Deregister { id: ID },
            Effect::Stop,
        ]
    );
    assert_eq!(conn.state(), Lifecycle::Closing);
    assert_eq!(conn.stopping(), vec![]);
    assert_eq!(conn.state(), Lifecycle::Closed);
}

#[test]
fn text_hello_reaches_the_backend_with_a_newline() {
    let mut conn = active(FramingPolicy::LineDelimited);
    assert_eq!(
        conn.handle(Frame::Text("hello".to_string()), 101),
        vec![Effect::WriteTcp(b"hello\n".to_vec())]
    );
    assert_eq!(conn.state(), Lifecycle::Active);
}

#[test]
fn text_reaches_the_backend_verbatim_under_the_raw_policy() {
    let mut conn = active(FramingPolicy::RawChunk);
    assert_eq!(
        conn.handle(Frame::Text("hello".to_string()), 101),
        vec![Effect::WriteTcp(b"hello".to_vec())]
    );
}

#[test]
fn binary_reaches_the_backend_verbatim_under_either_policy() {
    for policy in [FramingPolicy::LineDelimited, FramingPolicy::RawChunk] {
        let mut conn = active(policy);
        assert_eq!(
            conn.handle(Frame::Binary(vec![0, 10, 255]), 101),
            vec![Effect::WriteTcp(vec![0, 10, 255])]
        );
    }
}

#[test]
fn data_frames_do_not_count_as_signs_of_life() {
    let mut conn = active(FramingPolicy::LineDelimited);
    conn.handle(Frame::Text("x".to_string()), 105);
    conn.handle(Frame::Binary(vec![1]), 106);
    assert_eq!(conn.last_heartbeat(), 100);
}

#[test]
fn data_frames_before_the_relay_is_live_are_dropped() {
    let mut conn = WsConn::with_id(ID, 100, FramingPolicy::LineDelimited);
    assert_eq!(conn.handle(Frame::Text("early".to_string()), 100), vec![]);
    conn.started();
    assert_eq!(conn.handle(Frame::Binary(vec![1, 2]), 100), vec![]);
    assert_eq!(conn.state(), Lifecycle::Dialing);
    assert!(!conn.is_writing());
    assert_eq!(conn.queued(), 0);
}

#[test]
fn only_one_write_is_under_way_at_a_time() {
    let mut conn = active(FramingPolicy::LineDelimited);
    assert_eq!(
        conn.handle(Frame::Text("a".to_string()), 101),
        vec![Effect::WriteTcp(b"a\n".to_vec())]
    );
    assert!(conn.is_writing());
    assert_eq!(conn.handle(Frame::Binary(b"b".to_vec()), 101), vec![]);
    assert_eq!(conn.handle(Frame::Text("c".to_string()), 101), vec![]);
    assert_eq!(conn.queued(), 2);
    assert_eq!(conn.write_completed(), vec![Effect::WriteTcp(b"b".to_vec())]);
    assert_eq!(conn.queued(), 1);
    assert!(conn.is_writing());
    assert_eq!(conn.write_completed(), vec![Effect::WriteTcp(b"c\n".to_vec())]);
    assert_eq!(conn.queued(), 0);
    assert!(conn.is_writing());
    assert_eq!(conn.write_completed(), vec![]);
    assert!(!conn.is_writing());
    assert_eq!(
        conn.handle(Frame::Text("d".to_string()), 101),
        vec![Effect::WriteTcp(b"d\n".to_vec())]
    );
}

#[test]
fn a_completion_without_a_write_is_ignored() {
    let mut conn = active(FramingPolicy::LineDelimited);
    assert_eq!(conn.write_completed(), vec![]);
    assert!(!conn.is_writing());
    let mut early = dialing(FramingPolicy::LineDelimited);
    assert_eq!(early.write_completed(), vec![]);
    assert_eq!(early.state(), Lifecycle::Dialing);
}

#[test]
fn a_failed_write_is_fatal_and_drops_what_waits() {
    let mut conn = active(FramingPolicy::LineDelimited);
    conn.handle(Frame::Text("a".to_string()), 101);
    conn.handle(Frame::Text("b".to_string()), 101);
    assert_eq!(conn.queued(), 1);
    assert_eq!(conn.write_failed(), full_teardown(None));
    assert_eq!(conn.state(), Lifecycle::Closing);
    assert_eq!(conn.queued(), 0);
    assert!(!conn.is_writing());
    assert_eq!(conn.write_completed(), vec![]);
    assert_eq!(conn.write_failed(), vec![]);
}

#[test]
fn a_failed_write_before_the_relay_is_live_is_ignored() {
    let mut conn = dialing(FramingPolicy::LineDelimited);
    assert_eq!(conn.write_failed(), vec![]);
    assert_eq!(conn.reader_ended(), vec![]);
    assert_eq!(conn.state(), Lifecycle::Dialing);
}

#[test]
fn a_ping_is_answered_and_counts_as_a_sign_of_life() {
    let mut conn = active(FramingPolicy::LineDelimited);
    assert_eq!(conn.handle(Frame::Ping(b"p1".to_vec()), 107), vec![Effect::Pong(b"p1".to_vec())]);
    assert_eq!(conn.last_heartbeat(), 107);
    assert_eq!(conn.state(), Lifecycle::Active);
}

#[test]
fn a_pong_counts_as_a_sign_of_life_and_nothing_else() {
    let mut conn = active(FramingPolicy::LineDelimited);
    assert_eq!(conn.handle(Frame::Pong(vec![]), 108), vec![]);
    assert_eq!(conn.last_heartbeat(), 108);
    assert_eq!(conn.state(), Lifecycle::Active);
}

#[test]
fn pings_are_answered_while_dialing() {
    let mut conn = dialing(FramingPolicy::LineDelimited);
    assert_eq!(conn.handle(Frame::Ping(vec![1]), 103), vec![Effect::Pong(vec![1])]);
    assert_eq!(conn.last_heartbeat(), 103);
    assert_eq!(conn.state(), Lifecycle::Dialing);
}

#[test]
fn a_tick_within_the_timeout_pings_the_peer() {
    let mut conn = active(FramingPolicy::LineDelimited);
    assert_eq!(conn.hb(105), vec![Effect::Ping]);
    assert_eq!(conn.hb(110), vec![Effect::Ping]);
    assert_eq!(conn.state(), Lifecycle::Active);
    assert_eq!(conn.last_heartbeat(), 100);
}

#[test]
fn a_tick_past_the_timeout_ends_the_session() {
    let mut conn = active(FramingPolicy::LineDelimited);
    assert_eq!(conn.hb(110), vec![Effect::Ping]);
    assert_eq!(conn.hb(111), full_teardown(None));
    assert_eq!(conn.state(), Lifecycle::Closing);
    assert_eq!(conn.hb(116), vec![]);
}

#[test]
fn a_silent_peer_is_given_up_within_one_tick_of_the_deadline() {
    let mut conn = active(FramingPolicy::LineDelimited);
    let mut now = 100;
    let mut closed_at = None;
    while closed_at.is_none() {
        now += HEARTBEAT_INTERVAL;
        conn.hb(now);
        if !conn.is_alive() {
            closed_at = Some(now);
        }
    }
    let deadline = 100 + CLIENT_TIMEOUT;
    let closed_at = closed_at.unwrap();
    assert!(closed_at > deadline);
    assert!(closed_at <= deadline + HEARTBEAT_INTERVAL);
    assert_eq!(closed_at, 115);
}

#[test]
fn a_sign_of_life_moves_the_deadline() {
    let mut conn = active(FramingPolicy::LineDelimited);
    conn.handle(Frame::Pong(vec![]), 109);
    assert_eq!(conn.hb(115), vec![Effect::Ping]);
    assert_eq!(conn.hb(119), vec![Effect::Ping]);
    assert_eq!(conn.hb(120), full_teardown(None));
}

#[test]
fn a_clock_that_runs_backwards_does_not_time_out() {
    let mut conn = active(FramingPolicy::LineDelimited);
    assert_eq!(conn.hb(3), vec![Effect::Ping]);
    assert_eq!(conn.hb(0), vec![Effect::Ping]);
    assert!(conn.is_alive());
    let mut late = WsConn::with_id(ID, u64::MAX, FramingPolicy::LineDelimited);
    assert_eq!(late.hb(u64::MAX), vec![Effect::Ping]);
}

#[test]
fn the_timeout_also_ends_a_session_that_still_dials() {
    let mut conn = dialing(FramingPolicy::LineDelimited);
    assert_eq!(
        conn.hb(111),
        vec![
            Effect::CloseWebSocket(None),
            Effect::CancelHeartbeat,
            Effect::Deregister { id: ID },
            Effect::Stop,
        ]
    );
    assert_eq!(conn.state(), Lifecycle::Closing);
    assert_eq!(conn.dial_succeeded(), vec![]);
    assert_eq!(conn.state(), Lifecycle::Closing);
}

#[test]
fn a_close_frame_with_code_1000_closes_the_backend_and_the_session() {
    let mut conn = active(FramingPolicy::LineDelimited);
    let reason = Some(CloseReason { code: 1000, description: None });
    assert_eq!(conn.handle(Frame::Close(reason.clone()), 101), full_teardown(reason));
    assert_eq!(conn.state(), Lifecycle::Closing);
    assert_eq!(conn.stopping(), vec![]);
    assert_eq!(conn.state(), Lifecycle::Closed);
}

#[test]
fn a_close_frame_is_answered_with_the_same_reason() {
    let mut conn = active(FramingPolicy::LineDelimited);
    let reason = Some(CloseReason { code: 4001, description: Some("bye".to_string()) });
    let effects = conn.handle(Frame::Close(reason.clone()), 101);
    assert_eq!(effects[0], Effect::CloseWebSocket(reason));
    let mut bare = active(FramingPolicy::LineDelimited);
    let effects = bare.handle(Frame::Close(None), 101);
    assert_eq!(effects, full_teardown(None));
}

#[test]
fn an_invalid_frame_ends_the_session() {
    let mut conn = active(FramingPolicy::LineDelimited);
    assert_eq!(conn.handle(Frame::Invalid, 101), full_teardown(None));
    assert_eq!(conn.state(), Lifecycle::Closing);
}

#[test]
fn a_session_that_never_started_has_no_heartbeat_to_cancel() {
    let mut conn = WsConn::with_id(ID, 100, FramingPolicy::LineDelimited);
    assert_eq!(
        conn.handle(Frame::Close(None), 100),
        vec![Effect::CloseWebSocket(None), Effect::Deregister { id: ID }, Effect::Stop]
    );
    assert_eq!(conn.state(), Lifecycle::Closing);
}

#[test]
fn a_unit_from_the_backend_becomes_one_text_frame() {
    let mut conn = active(FramingPolicy::LineDelimited);
    assert_eq!(
        conn.relay(WsMessage("foo".to_string())),
        vec![Effect::SendText("foo".to_string())]
    );
    assert_eq!(conn.relay(WsMessage(String::new())), vec![Effect::SendText(String::new())]);
    assert_eq!(conn.state(), Lifecycle::Active);
}

#[test]
fn units_are_discarded_unless_the_session_is_active() {
    let mut conn = dialing(FramingPolicy::LineDelimited);
    assert_eq!(conn.relay(WsMessage("foo".to_string())), vec![]);
    let mut conn = active(FramingPolicy::LineDelimited);
    conn.handle(Frame::Invalid, 101);
    assert_eq!(conn.relay(WsMessage("foo".to_string())), vec![]);
    conn.stopping();
    assert_eq!(conn.relay(WsMessage("foo".to_string())), vec![]);
}

#[test]
fn the_end_of_the_backend_stream_ends_the_session() {
    let mut conn = active(FramingPolicy::LineDelimited);
    assert_eq!(conn.reader_ended(), full_teardown(None));
    assert_eq!(conn.state(), Lifecycle::Closing);
    assert_eq!(conn.reader_ended(), vec![]);
}

#[test]
fn a_second_reason_to_end_tears_nothing_down_again() {
    let mut conn = active(FramingPolicy::LineDelimited);
    assert_eq!(conn.reader_ended(), full_teardown(None));
    assert_eq!(conn.hb(200), vec![]);
    assert_eq!(conn.write_failed(), vec![]);
    assert_eq!(conn.handle(Frame::Close(None), 200), vec![]);
    assert_eq!(conn.handle(Frame::Invalid, 200), vec![]);
    assert_eq!(conn.handle(Frame::Ping(vec![]), 200), vec![]);
    assert_eq!(conn.last_heartbeat(), 100);
    assert_eq!(conn.state(), Lifecycle::Closing);
}

#[test]
fn stopping_an_active_session_tears_it_down() {
    let mut conn = active(FramingPolicy::LineDelimited);
    conn.handle(Frame::Text("a".to_string()), 101);
    conn.handle(Frame::Text("b".to_string()), 101);
    assert_eq!(
        conn.stopping(),
        vec![
            Effect::CloseWebSocket(None),
            Effect::StopReader,
            Effect::CloseTcp,
            Effect::CancelHeartbeat,
            Effect::Deregister { id: ID },
        ]
    );
    assert_eq!(conn.state(), Lifecycle::Closed);
    assert_eq!(conn.queued(), 0);
    assert!(!conn.is_writing());
    assert_eq!(conn.stopping(), vec![]);
    assert_eq!(conn.state(), Lifecycle::Closed);
}

#[test]
fn stopping_a_session_that_never_started_still_leaves_the_registry() {
    let mut conn = WsConn::with_id(ID, 100, FramingPolicy::LineDelimited);
    assert_eq!(
        conn.stopping(),
        vec![Effect::CloseWebSocket(None), Effect::Deregister { id: ID }]
    );
    assert_eq!(conn.state(), Lifecycle::Closed);
}

#[test]
fn a_closed_session_discards_every_event() {
    let mut conn = active(FramingPolicy::LineDelimited);
    conn.stopping();
    let events = vec![
        Event::Started,
        Event::DialSucceeded,
        Event::DialFailed,
        Event::Frame { frame: Frame::Ping(vec![1]), now: 500 },
        Event::Frame { frame: Frame::Text("x".to_string()), now: 500 },
        Event::Frame { frame: Frame::Close(None), now: 500 },
        Event::Tick { now: 500 },
        Event::Relay(WsMessage("x".to_string())),
        Event::ReaderEnded,
        Event::WriteCompleted,
        Event::WriteFailed,
        Event::Stopping,
    ];
    for event in events {
        assert_eq!(conn.step(event), vec![]);
        assert_eq!(conn.state(), Lifecycle::Closed);
        assert_eq!(conn.last_heartbeat(), 100);
    }
}

#[test]
fn step_does_what_the_named_handlers_do() {
    let mut by_step = WsConn::with_id(ID, 100, FramingPolicy::LineDelimited);
    let mut by_name = WsConn::with_id(ID, 100, FramingPolicy::LineDelimited);
    assert_eq!(by_step.step(Event::Started), by_name.started());
    assert_eq!(by_step.step(Event::DialSucceeded), by_name.dial_succeeded());
    assert_eq!(
        by_step.step(Event::Frame { frame: Frame::Text("a".to_string()), now: 101 }),
        by_name.handle(Frame::Text("a".to_string()), 101)
    );
    assert_eq!(by_step.step(Event::Tick { now: 105 }), by_name.hb(105));
    assert_eq!(
        by_step.step(Event::Relay(WsMessage("u".to_string()))),
        by_name.relay(WsMessage("u".to_string()))
    );
    assert_eq!(by_step.step(Event::WriteCompleted), by_name.write_completed());
    assert_eq!(by_step.step(Event::ReaderEnded), by_name.reader_ended());
    assert_eq!(by_step.step(Event::Stopping), by_name.stopping());
    assert_eq!(by_step.state(), Lifecycle::Closed);
    assert_eq!(by_name.state(), Lifecycle::Closed);
}

#[test]
fn a_whole_run_yields_all_effects_in_order() {
    let mut conn = WsConn::with_id(ID, 100, FramingPolicy::LineDelimited);
    let effects = conn.run(vec![
        Event::Started,
        Event::DialSucceeded,
        Event::Frame { frame: Frame::Text("hello".to_string()), now: 101 },
        Event::Frame { frame: Frame::Binary(vec![7]), now: 102 },
        Event::Relay(WsMessage("foo".to_string())),
        Event::WriteCompleted,
        Event::Tick { now: 105 },
        Event::Frame {
            frame: Frame::Close(Some(CloseReason { code: 1000, description: None })),
            now: 106,
        },
        Event::Stopping,
    ]);
    assert_eq!(
        effects,
        vec![
            Effect::StartHeartbeat { interval: 5 },
            Effect::Register { id: ID },
            Effect::Dial,
            Effect::SpawnReader,
            Effect::WriteTcp(b"hello\n".to_vec()),
            Effect::SendText("foo".to_string()),
            Effect::WriteTcp(vec![7]),
            Effect::Ping,
            Effect::CloseWebSocket(Some(CloseReason { code: 1000, description: None })),
            Effect::StopReader,
            Effect::CloseTcp,
            Effect::CancelHeartbeat,
            Effect::Deregister { id: ID },
            Effect::Stop,
        ]
    );
    assert_eq!(conn.state(), Lifecycle::Closed);
    assert_eq!(conn.run(vec![]), vec![]);
}

#[test]
fn every_payload_is_written_once_and_in_order() {
    let mut conn = active(FramingPolicy::LineDelimited);
    let mut written: Vec<u8> = Vec::new();
    let mut expected: Vec<u8> = Vec::new();
    let mut in_flight = 0;
    for round in 0..20u8 {
        let effects = if round % 3 == 0 {
            expected.extend_from_slice(&[round, round]);
            conn.handle(Frame::Binary(vec![round, round]), 101)
        } else if round % 3 == 1 {
            expected.extend_from_slice(format!("t{}\n", round).as_bytes());
            conn.handle(Frame::Text(format!("t{}", round)), 101)
        } else {
            in_flight -= 1;
            conn.write_completed()
        };
        for effect in effects {
            match effect {
                Effect::WriteTcp(bytes) => {
                    in_flight += 1;
                    assert_eq!(in_flight, 1);
                    written.extend(bytes);
                }
                other => panic!("unexpected effect {:?}", other),
            }
        }
    }
    while conn.is_writing() {
        for effect in conn.write_completed() {
            match effect {
                Effect::WriteTcp(bytes) => written.extend(bytes),
                other => panic!("unexpected effect {:?}", other),
            }
        }
    }
    assert_eq!(written, expected);
    assert_eq!(conn.queued(), 0);
}
