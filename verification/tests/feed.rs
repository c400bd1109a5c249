use hlm::feed::{
    bootstrap_start, candle_from_frame, newest_candles, Candle, FeedData, FeedLink, LinkAction,
    LinkEvent, MAX_BACKOFF_SECS,
};

fn candle(t: u64, c: &str) -> Candle {
    Candle { t, o: "1".to_string(), h: "1".to_string(), l: "1".to_string(), c: c.to_string() }
}

#[test]
fn bootstrap_window_spans_ten_candles() {
    assert_eq!(bootstrap_start(1_000_000, 60_000), 400_000);
    assert_eq!(bootstrap_start(600_000, 60_000), 0);
    assert_eq!(bootstrap_start(5, 60_000), 0);
    assert_eq!(bootstrap_start(10_000_000_000, 2_592_000_000), 0);
    assert_eq!(bootstrap_start(30_000_000_000, 2_592_000_000), 4_080_000_000);
}

#[test]
fn newest_candles_sorts_and_keeps_the_last_ten() {
    let input: Vec<Candle> = (0..15u64).rev().map(|t| candle(t, &t.to_string())).collect();
    let out = newest_candles(input);
    let times: Vec<u64> = out.iter().map(|c| c.t).collect();
    assert_eq!(times, (5..15).collect::<Vec<u64>>());
}

#[test]
fn newest_candles_keeps_short_input_whole() {
    let input = vec![candle(3, "a"), candle(1, "b"), candle(2, "c")];
    let out = newest_candles(input);
    let times: Vec<u64> = out.iter().map(|c| c.t).collect();
    assert_eq!(times, vec![1, 2, 3]);
    assert!(newest_candles(Vec::new()).is_empty());
}

#[test]
fn newest_candles_sort_is_stable() {
    let input = vec![candle(2, "first"), candle(1, "x"), candle(2, "second"), candle(2, "third")];
    let out = newest_candles(input);
    let closes: Vec<&str> = out.iter().map(|c| c.c.as_str()).collect();
    assert_eq!(closes, vec!["x", "first", "second", "third"]);
}

#[test]
fn frames_on_other_channels_carry_nothing() {
    assert_eq!(candle_from_frame("pong", FeedData::Single(Some(candle(1, "1")))), None);
    assert_eq!(candle_from_frame("subscriptionResponse", FeedData::Batch(vec![Some(candle(1, "1"))])), None);
}

#[test]
fn frames_on_the_candle_channel() {
    assert_eq!(candle_from_frame("candle", FeedData::Single(Some(candle(7, "9")))), Some(candle(7, "9")));
    assert_eq!(candle_from_frame("candle", FeedData::Single(None)), None);
    assert_eq!(
        candle_from_frame(
            "candle",
            FeedData::Batch(vec![Some(candle(1, "a")), Some(candle(2, "b"))])
        ),
        Some(candle(2, "b"))
    );
    assert_eq!(candle_from_frame("candle", FeedData::Batch(vec![Some(candle(1, "a")), None])), None);
    assert_eq!(candle_from_frame("candle", FeedData::Batch(Vec::new())), None);
}

fn sleep_of(a: LinkAction) -> u64 {
    match a {
        LinkAction::Sleep(d) => d,
        _ => panic!("expected a pause"),
    }
}

#[test]
fn backoff_doubles_up_to_thirty_seconds() {
    let mut link = FeedLink::new();
    let pauses: Vec<u64> =
        (0..8).map(|_| sleep_of(link.on_event(LinkEvent::ConnectFailed))).collect();
    assert_eq!(pauses, vec![1, 2, 4, 8, 16, 30, 30, 30]);
    assert_eq!(MAX_BACKOFF_SECS, 30);
}

#[test]
fn connecting_resets_backoff_and_subscribes() {
    let mut link = FeedLink::new();
    link.on_event(LinkEvent::ConnectFailed);
    link.on_event(LinkEvent::Closed);
    assert_eq!(link.backoff_secs, 4);
    assert!(matches!(link.on_event(LinkEvent::Connected), LinkAction::Subscribe));
    assert_eq!(link.backoff_secs, 1);
    assert_eq!(sleep_of(link.on_event(LinkEvent::Closed)), 1);
}

#[test]
fn other_events() {
    let mut link = FeedLink::new();
    assert!(matches!(link.on_event(LinkEvent::SubscribeFailed), LinkAction::Reconnect));
    assert!(matches!(link.on_event(LinkEvent::PingDue), LinkAction::SendPing));
    assert!(matches!(link.on_event(LinkEvent::Received(None)), LinkAction::Wait));
    match link.on_event(LinkEvent::Received(Some(candle(3, "x")))) {
        LinkAction::Forward(c) => assert_eq!(c, candle(3, "x")),
        _ => panic!("expected the candle to be forwarded"),
    }
    assert!(matches!(link.on_event(LinkEvent::ForwardFailed), LinkAction::Stop));
    assert_eq!(link.backoff_secs, 1);
}
