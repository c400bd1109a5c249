use hlm::feed::Candle;
use hlm::state::{decimal_places, AppState, CANDLE_COUNT};

fn candle(t: u64, o: &str, h: &str, l: &str, c: &str) -> Candle {
    Candle { t, o: o.to_string(), h: h.to_string(), l: l.to_string(), c: c.to_string() }
}

#[test]
fn decimals_count_significant_digits_after_the_dot() {
    assert_eq!(decimal_places("123.4500"), 2);
    assert_eq!(decimal_places("0.001"), 3);
    assert_eq!(decimal_places("100"), 0);
    assert_eq!(decimal_places("100.0"), 0);
    assert_eq!(decimal_places("1."), 0);
    assert_eq!(decimal_places(""), 0);
    assert_eq!(decimal_places(".5"), 1);
    assert_eq!(decimal_places("1.2.30"), 3);
    assert_eq!(decimal_places("1.05"), 2);
}

#[test]
fn new_state_is_empty_and_dirty() {
    let s = AppState::new("BTC".to_string(), "1m".to_string());
    assert_eq!(s.coin, "BTC");
    assert_eq!(s.interval_label, "1m");
    assert!(s.candles.is_empty());
    assert_eq!(s.price_decimals, 0);
    assert!(s.dirty);
}

#[test]
fn push_learns_the_widest_precision_and_never_shrinks() {
    let mut s = AppState::new("BTC".to_string(), "1m".to_string());
    s.push(candle(1, "100.5", "101.25", "99", "100.125"));
    assert_eq!(s.price_decimals, 3);
    s.push(candle(2, "100", "100", "100", "100"));
    assert_eq!(s.price_decimals, 3);
    s.push(candle(3, "1.23456", "1", "1", "1"));
    assert_eq!(s.price_decimals, 5);
}

#[test]
fn same_open_time_replaces_the_newest_candle() {
    let mut s = AppState::new("ETH".to_string(), "5m".to_string());
    s.push(candle(10, "1", "2", "0", "1"));
    s.dirty = false;
    s.push(candle(10, "1", "3", "0", "2"));
    assert_eq!(s.candles.len(), 1);
    assert_eq!(s.candles[0].c, "2");
    assert_eq!(s.candles[0].h, "3");
    assert!(s.dirty);
}

#[test]
fn window_keeps_the_newest_candle_count() {
    let mut s = AppState::new("SOL".to_string(), "1m".to_string());
    for t in 0..(CANDLE_COUNT as u64 + 5) {
        s.push(candle(t, "1", "1", "1", "1"));
        assert!(s.candles.len() <= CANDLE_COUNT);
        assert_eq!(s.candles.back().unwrap().t, t);
    }
    assert_eq!(s.candles.len(), CANDLE_COUNT);
    let times: Vec<u64> = s.candles.iter().map(|c| c.t).collect();
    assert_eq!(times, (5..15).collect::<Vec<u64>>());
}

#[test]
fn older_open_time_is_appended_not_merged() {
    let mut s = AppState::new("SOL".to_string(), "1m".to_string());
    s.push(candle(20, "1", "1", "1", "1"));
    s.push(candle(10, "1", "1", "1", "1"));
    let times: Vec<u64> = s.candles.iter().map(|c| c.t).collect();
    assert_eq!(times, vec![20, 10]);
}

#[test]
fn candles_arriving_in_time_order_stay_sorted() {
    let mut s = AppState::new("BTC".to_string(), "1h".to_string());
    for t in [1u64, 2, 2, 5, 9, 9, 12, 13, 20, 21, 22, 30, 31] {
        s.push(candle(t, "1", "1", "1", "1"));
        let times: Vec<u64> = s.candles.iter().map(|c| c.t).collect();
        assert!(times.windows(2).all(|w| w[0] <= w[1]));
    }
    let times: Vec<u64> = s.candles.iter().map(|c| c.t).collect();
    assert_eq!(times, vec![2, 5, 9, 12, 13, 20, 21, 22, 30, 31]);
}
