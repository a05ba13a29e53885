use pocketbase_sdk::frames::{EventFrameParser, ServerEvent};
use pocketbase_sdk::keys::{key_of, RealtimeOptions};
use pocketbase_sdk::percent::{encode, encode_uri_component};
use pocketbase_sdk::realtime::{
    backoff_delay, ErrorOutcome, EventOutcome, RealtimeEngine, RealtimeError,
};

fn feed_all(parser: &mut EventFrameParser, bytes: &[u8]) -> Vec<ServerEvent> {
    parser.feed(bytes)
}

#[test]
fn test_realtime_service_new() {
    let engine = RealtimeEngine::new();
    assert!(!engine.is_connected());
    assert!(engine.get_client_id().is_empty());
}

#[test]
fn test_parser_split_control_frame() {
    // the control frame split mid-line across two chunks parses to one event
    let mut parser = EventFrameParser::new();
    let first = feed_all(&mut parser, b"event: PB_CONNECT\nid: abc1");
    assert!(first.is_empty());
    let second = feed_all(&mut parser, b"23\n\n");
    assert_eq!(second.len(), 1);
    assert_eq!(second[0].event_type, b"PB_CONNECT".to_vec());
    assert_eq!(second[0].id, b"abc123".to_vec());
    assert_eq!(second[0].data, Vec::<u8>::new());
}

#[test]
fn test_parser_multiline_data_and_cr() {
    let mut parser = EventFrameParser::new();
    let events = feed_all(&mut parser, b"event: posts\r\ndata: a\ndata: b\n\n");
    assert_eq!(events.len(), 1);
    assert_eq!(events[0].event_type, b"posts".to_vec());
    assert_eq!(events[0].data, b"a\nb".to_vec());
}

#[test]
fn test_parser_ignores_unknown_lines_and_empty_events() {
    let mut parser = EventFrameParser::new();
    let events = feed_all(&mut parser, b": comment\nretry: 300\n\n\n\n");
    assert!(events.is_empty());
}

#[test]
fn test_backoff_schedule_clamps() {
    let schedule: Vec<u64> = vec![200, 300, 500];
    let expected: Vec<u64> = vec![200, 300, 500, 500, 500];
    for i in 0..5u64 {
        assert_eq!(backoff_delay(&schedule, i), expected[i as usize]);
    }
}

#[test]
fn test_subscribe_empty_topic_rejected() {
    let mut engine = RealtimeEngine::new();
    let r = engine.subscribe("", None);
    assert!(matches!(r, Err(RealtimeError::Validation)));
    assert!(!engine.is_connected());
}

#[test]
fn test_concurrent_subscribes_open_once() {
    // two subscribe calls while disconnected: exactly one stream open
    let mut engine = RealtimeEngine::new();
    let first = engine.subscribe("alpha", None).unwrap();
    assert!(first.open_stream);
    assert!(first.waiter.is_some());
    let second = engine.subscribe("beta", None).unwrap();
    assert!(!second.open_stream);
    assert!(second.waiter.is_some());
    assert_ne!(first.waiter, second.waiter);
}

#[test]
fn test_unsubscribe_all_disconnects() {
    let mut engine = RealtimeEngine::new();
    engine.subscribe("posts", None).unwrap();
    engine.subscribe("users", None).unwrap();
    let out = engine.unsubscribe(None);
    assert!(out.disconnect);
    assert!(!engine.is_connected());
    // a new subscribe starts over with a fresh open
    let again = engine.subscribe("posts", None).unwrap();
    assert!(again.open_stream);
}

fn connect(engine: &mut RealtimeEngine, session: &[u8]) -> Vec<ServerEvent> {
    let mut parser = EventFrameParser::new();
    let mut frame = b"event: PB_CONNECT\nid: ".to_vec();
    frame.extend_from_slice(session);
    frame.extend_from_slice(b"\n\n");
    parser.feed(&frame)
}

#[test]
fn test_control_frame_connects_and_resolves() {
    let mut engine = RealtimeEngine::new();
    let sub = engine.subscribe("posts", None).unwrap();
    let events = connect(&mut engine, b"sess1");
    assert_eq!(events.len(), 1);
    match engine.handle_event(&events[0]) {
        EventOutcome::Connected { announce, resolved } => {
            assert_eq!(resolved, vec![sub.waiter.unwrap()]);
            let call = announce.expect("topics were active");
            assert_eq!(call.client_id, "sess1");
            assert_eq!(call.topics, vec!["posts".to_string()]);
        }
        _ => panic!("expected the connected outcome"),
    }
    assert!(engine.is_connected());
    assert_eq!(engine.get_client_id(), "sess1");
}

#[test]
fn test_end_to_end_dispatch() {
    // subscribe to "posts", receive a posts frame, see the listener called
    let mut engine = RealtimeEngine::new();
    let sub = engine.subscribe("posts", None).unwrap();
    let mut parser = EventFrameParser::new();
    let control = parser.feed(b"event: PB_CONNECT\nid: s1\n\n");
    engine.handle_event(&control[0]);
    let data = parser.feed(b"event: posts\ndata: {\"action\":\"create\",\"record\":{\"id\":\"x\"}}\n\n");
    assert_eq!(data.len(), 1);
    match engine.handle_event(&data[0]) {
        EventOutcome::Dispatch { listeners, message } => {
            assert_eq!(listeners, vec![sub.sub_id]);
            assert_eq!(message.action, "create");
            assert_eq!(message.record["id"], "x");
        }
        _ => panic!("expected a dispatch"),
    }
}

#[test]
fn test_bad_payload_is_dropped_and_stream_continues() {
    // a data payload that fails JSON decoding reaches no listener and
    // does not end the processing loop
    let mut engine = RealtimeEngine::new();
    engine.subscribe("posts", None).unwrap();
    let mut parser = EventFrameParser::new();
    let control = parser.feed(b"event: PB_CONNECT\nid: s1\n\n");
    engine.handle_event(&control[0]);
    let bad = parser.feed(b"event: posts\ndata: {not json]\n\n");
    assert_eq!(bad.len(), 1);
    assert!(matches!(engine.handle_event(&bad[0]), EventOutcome::Ignored));
    // the engine still dispatches the next, well-formed event
    let good = parser.feed(b"event: posts\ndata: {\"action\":\"update\",\"record\":{}}\n\n");
    match engine.handle_event(&good[0]) {
        EventOutcome::Dispatch { listeners, .. } => assert_eq!(listeners.len(), 1),
        _ => panic!("expected a dispatch after the dropped event"),
    }
}

#[test]
fn test_duplicate_subscription_and_removal() {
    // two subscriptions to one topic share a bucket but have their own
    // ids; removing one leaves the other listening
    let mut engine = RealtimeEngine::new();
    let s1 = engine.subscribe("posts", None).unwrap();
    let s2 = engine.subscribe("posts", None).unwrap();
    assert_ne!(s1.sub_id, s2.sub_id);
    let mut parser = EventFrameParser::new();
    let control = parser.feed(b"event: PB_CONNECT\nid: s1\n\n");
    engine.handle_event(&control[0]);
    let out = engine.unsubscribe_by_id("posts", s1.sub_id);
    assert!(!out.disconnect);
    assert!(out.announce.is_some());
    let data = parser.feed(b"event: posts\ndata: {\"action\":\"create\",\"record\":{}}\n\n");
    match engine.handle_event(&data[0]) {
        EventOutcome::Dispatch { listeners, .. } => {
            assert_eq!(listeners, vec![s2.sub_id]);
        }
        _ => panic!("expected a dispatch to the remaining listener"),
    }
}

#[test]
fn test_first_attempt_failure_gives_up() {
    let mut engine = RealtimeEngine::new();
    let sub = engine.subscribe("posts", None).unwrap();
    match engine.handle_stream_error() {
        ErrorOutcome::GiveUp { rejected } => {
            assert_eq!(rejected, vec![sub.waiter.unwrap()]);
        }
        _ => panic!("a first-attempt failure must reject the waiters"),
    }
    assert!(!engine.is_connected());
}

#[test]
fn test_reconnect_walks_backoff_schedule() {
    let mut engine = RealtimeEngine::new();
    engine.subscribe("posts", None).unwrap();
    let mut parser = EventFrameParser::new();
    let control = parser.feed(b"event: PB_CONNECT\nid: s1\n\n");
    engine.handle_event(&control[0]);
    // connected; now the stream breaks repeatedly
    let mut delays = Vec::new();
    for _ in 0..3 {
        match engine.handle_stream_error() {
            ErrorOutcome::Retry { delay_ms } => delays.push(delay_ms),
            _ => panic!("a reconnect was expected"),
        }
    }
    assert_eq!(delays, vec![200, 300, 500]);
    assert!(engine.should_reopen());
    // an explicit disconnect while sleeping cancels the retry
    engine.disconnect(false);
    assert!(!engine.should_reopen());
}

#[test]
fn test_unsubscribe_by_prefix() {
    let mut engine = RealtimeEngine::new();
    engine.subscribe("posts", None).unwrap();
    engine.subscribe("users", None).unwrap();
    let out = engine.unsubscribe_by_prefix("po");
    assert!(!out.disconnect);
    let out2 = engine.unsubscribe_by_prefix("users");
    assert!(out2.disconnect);
}

#[test]
fn test_key_of_options_suffix() {
    assert_eq!(key_of("posts", None), "posts");
    let opts = RealtimeOptions {
        query: vec![("filter".to_string(), "x".to_string())],
        headers: Vec::new(),
    };
    assert_eq!(
        key_of("posts", Some(&opts)),
        "posts?options=%7B%22query%22%3A%7B%22filter%22%3A%22x%22%7D%2C%22headers%22%3A%7B%7D%7D"
    );
    // a topic already carrying a query string appends with `&`
    assert!(key_of("posts?x=1", Some(&opts)).starts_with("posts?x=1&options="));
    // identical options give identical keys; different options differ
    let opts2 = RealtimeOptions {
        query: vec![("filter".to_string(), "y".to_string())],
        headers: Vec::new(),
    };
    assert_eq!(key_of("posts", Some(&opts)), key_of("posts", Some(&opts)));
    assert_ne!(key_of("posts", Some(&opts)), key_of("posts", Some(&opts2)));
}

#[test]
fn test_subscribe_with_options_separate_buckets() {
    let mut engine = RealtimeEngine::new();
    let opts = RealtimeOptions {
        query: vec![("filter".to_string(), "x".to_string())],
        headers: Vec::new(),
    };
    let plain = engine.subscribe("posts", None).unwrap();
    let with_opts = engine.subscribe("posts", Some(&opts)).unwrap();
    let mut parser = EventFrameParser::new();
    let control = parser.feed(b"event: PB_CONNECT\nid: s1\n\n");
    match engine.handle_event(&control[0]) {
        EventOutcome::Connected { announce, .. } => {
            let call = announce.unwrap();
            assert_eq!(call.topics.len(), 2);
        }
        _ => panic!("expected the connected outcome"),
    }
    // the bare topic key only reaches the plain subscription
    let data = parser.feed(b"event: posts\ndata: {\"action\":\"create\",\"record\":{}}\n\n");
    match engine.handle_event(&data[0]) {
        EventOutcome::Dispatch { listeners, .. } => assert_eq!(listeners, vec![plain.sub_id]),
        _ => panic!("expected a dispatch"),
    }
    // removing by the bare topic name removes both subscriptions
    let out = engine.unsubscribe(Some("posts"));
    assert!(out.disconnect);
    let _ = with_opts;
}

#[test]
fn test_encode_functions() {
    assert_eq!(encode("hello world"), "hello%20world");
    assert_eq!(encode("abc-_.~"), "abc-_.~");
    assert_eq!(encode("caf\u{e9}"), "caf%C3%A9");
    assert_eq!(encode_uri_component("a/b"), "a%2Fb");
}

#[test]
fn test_unsubscribe_by_id_reaches_options_key() {
    // the caller holds only the bare topic name, but the registry key
    // carries an options suffix; removal by id must still find it
    let mut engine = RealtimeEngine::new();
    let opts = RealtimeOptions {
        query: vec![("filter".to_string(), "x".to_string())],
        headers: Vec::new(),
    };
    let sub = engine.subscribe("posts", Some(&opts)).unwrap();
    let out = engine.unsubscribe_by_id("posts", sub.sub_id);
    assert!(out.disconnect);
    assert!(!engine.is_connected());
}

#[test]
fn test_max_connect_timeout_default() {
    let engine = RealtimeEngine::new();
    assert_eq!(engine.max_connect_timeout(), 15000);
}

#[test]
fn test_realtime_message_deserialize() {
    // the message payload decodes into its action and record
    let mut engine = RealtimeEngine::new();
    engine.subscribe("posts", None).unwrap();
    let mut parser = EventFrameParser::new();
    let control = parser.feed(b"event: PB_CONNECT\nid: s1\n\n");
    engine.handle_event(&control[0]);
    let data = parser.feed(b"event: posts\ndata: {\"action\":\"create\",\"record\":{\"id\":\"test123\"}}\n\n");
    match engine.handle_event(&data[0]) {
        EventOutcome::Dispatch { message, .. } => {
            assert_eq!(message.action, "create");
            assert_eq!(message.record["id"], "test123");
        }
        _ => panic!("expected the payload to decode"),
    }
}

#[test]
fn test_subscribe_during_reconnect_waits() {
    // a subscriber arriving while a reconnect cycle is in flight joins
    // it as a waiter and does not open a second stream
    let mut engine = RealtimeEngine::new();
    engine.subscribe("posts", None).unwrap();
    let mut parser = EventFrameParser::new();
    let control = parser.feed(b"event: PB_CONNECT\nid: s1\n\n");
    engine.handle_event(&control[0]);
    match engine.handle_stream_error() {
        ErrorOutcome::Retry { .. } => {}
        _ => panic!("a reconnect was expected"),
    }
    let sub = engine.subscribe("users", None).unwrap();
    assert!(sub.waiter.is_some());
    assert!(!sub.open_stream);
    // the eventual control frame resolves the late waiter too
    let control2 = parser.feed(b"event: PB_CONNECT\nid: s2\n\n");
    match engine.handle_event(&control2[0]) {
        EventOutcome::Connected { resolved, .. } => {
            assert!(resolved.contains(&sub.waiter.unwrap()));
        }
        _ => panic!("expected the connected outcome"),
    }
}

#[test]
fn test_removal_with_topics_left_reannounces() {
    // removing one topic among several re-announces the remaining set
    let mut engine = RealtimeEngine::new();
    engine.subscribe("posts", None).unwrap();
    engine.subscribe("users", None).unwrap();
    let mut parser = EventFrameParser::new();
    let control = parser.feed(b"event: PB_CONNECT\nid: s1\n\n");
    engine.handle_event(&control[0]);
    let out = engine.unsubscribe(Some("posts"));
    assert!(!out.disconnect);
    let call = out.announce.expect("topics remain, so an announce is due");
    assert_eq!(call.client_id, "s1");
    assert_eq!(call.topics, vec!["users".to_string()]);
}
