use std::str::FromStr;

use hlm::cli::Interval;

#[test]
fn every_documented_interval_name_parses() {
    let cases = [
        ("m1", Interval::M1),
        ("m3", Interval::M3),
        ("m5", Interval::M5),
        ("m15", Interval::M15),
        ("m30", Interval::M30),
        ("h1", Interval::H1),
        ("h2", Interval::H2),
        ("h4", Interval::H4),
        ("h8", Interval::H8),
        ("h12", Interval::H12),
        ("d1", Interval::D1),
        ("d3", Interval::D3),
        ("w1", Interval::W1),
        ("M1", Interval::Mo1),
    ];
    for (name, interval) in cases {
        assert_eq!(name.parse::<Interval>(), Ok(interval));
        assert_eq!(Interval::from_str(name), Ok(interval));
    }
}

#[test]
fn unknown_interval_is_refused_with_message() {
    assert_eq!(
        "m2".parse::<Interval>(),
        Err("unknown interval 'm2', try m1 m5 h1 etc.".to_string())
    );
    assert_eq!(
        Interval::from_str("1m"),
        Err("unknown interval '1m', try m1 m5 h1 etc.".to_string())
    );
    assert_eq!(
        Interval::from_str(""),
        Err("unknown interval '', try m1 m5 h1 etc.".to_string())
    );
    assert!(Interval::from_str("mo1").is_err());
    assert!(Interval::from_str("M1 ").is_err());
}

#[test]
fn service_labels() {
    assert_eq!(Interval::M1.to_hl(), "1m");
    assert_eq!(Interval::M15.to_hl(), "15m");
    assert_eq!(Interval::H12.to_hl(), "12h");
    assert_eq!(Interval::D3.to_hl(), "3d");
    assert_eq!(Interval::W1.to_hl(), "1w");
    assert_eq!(Interval::Mo1.to_hl(), "1M");
}

#[test]
fn candle_periods() {
    assert_eq!(Interval::M1.millis(), 60_000);
    assert_eq!(Interval::M3.millis(), 180_000);
    assert_eq!(Interval::H1.millis(), 3_600_000);
    assert_eq!(Interval::H4.millis(), 14_400_000);
    assert_eq!(Interval::D1.millis(), 86_400_000);
    assert_eq!(Interval::W1.millis(), 604_800_000);
    assert_eq!(Interval::Mo1.millis(), 2_592_000_000);
}

#[test]
fn default_interval_name_is_m1() {
    assert_eq!("m1".parse::<Interval>().unwrap().to_hl(), "1m");
}
