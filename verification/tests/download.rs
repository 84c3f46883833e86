use backtide_core::download::{
    preview_request, preview_window, provider_instances, CircuitBreaker, InstrumentProfile, ProviderConfig,
};
use backtide_core::legs::requested_instruments;
use backtide_core::models::{DataError, Instrument, InstrumentType, Interval, Provider};
use backtide_core::text::trim_str;

#[test]
fn fetch_bar_preview_validates_before_accessing_the_engine() {
    assert!(preview_request("  ", 30).is_err());
    assert!(preview_request("AAPL", 1).is_err());
    assert!(preview_request("AAPL", 61).is_err());
}

#[test]
fn preview_requests_are_trimmed_and_bounded() {
    assert_eq!(preview_request(" AAPL\t", 2), Ok("AAPL".to_owned()));
    assert_eq!(preview_request("MSFT", 60), Ok("MSFT".to_owned()));
    assert_eq!(preview_request("\n", 10), Err("symbol must not be empty".to_owned()));
    assert_eq!(preview_request("X", 0), Err("limit must be between 2 and 60".to_owned()));
    assert_eq!(trim_str("  a b  "), "a b");
    assert_eq!(trim_str("   "), "");
}

#[test]
fn preview_window_covers_three_days_per_bar() {
    assert_eq!(preview_window(1_000_000, 2), (481_600, 1_000_000));
    assert_eq!(preview_window(1_000, 30), (0, 1_000));
}

#[test]
fn breaker_trips_after_consecutive_failures_and_resets_on_success() {
    let mut breaker = CircuitBreaker::new(3);
    assert!(breaker.check().is_ok());
    assert!(!breaker.record(false));
    assert!(!breaker.record(false));
    assert!(breaker.check().is_ok());
    assert!(breaker.record(false));
    assert_eq!(breaker.check(), Err(DataError::CircuitBreaker(3)));
    assert!(!breaker.record(false));
    assert_eq!(breaker.check(), Err(DataError::CircuitBreaker(4)));
    assert!(!breaker.record(true));
    assert!(breaker.check().is_ok());
    assert_eq!(breaker.failures, 0);
}

#[test]
fn requested_instruments_are_listed_once() {
    let profile = |symbol: &str, name: &str| InstrumentProfile {
        instrument: Instrument {
            symbol: symbol.to_owned(),
            name: name.to_owned(),
            base: None,
            quote: "USD".to_owned(),
            instrument_type: InstrumentType::Stocks,
            exchange: "NYSE".to_owned(),
            provider: Provider::Yahoo,
        },
        earliest_ts: vec![(Interval::OneDay, 0)],
        latest_ts: vec![(Interval::OneDay, 1)],
        legs: Vec::new(),
    };
    let instruments = requested_instruments(vec![profile("A", "first"), profile("B", "b"), profile("A", "second")]);
    let names: Vec<&str> = instruments.iter().map(|i| i.name.as_str()).collect();
    assert_eq!(names, ["first", "b"]);
}

#[test]
fn shared_providers_are_started_once() {
    let config = ProviderConfig {
        stocks: Provider::Yahoo,
        etf: Provider::Yahoo,
        forex: Provider::Yahoo,
        crypto: Provider::Binance,
    };
    assert_eq!(provider_instances(&config), vec![Provider::Yahoo, Provider::Binance]);
    let all = ProviderConfig {
        stocks: Provider::Yahoo,
        etf: Provider::Kraken,
        forex: Provider::Coinbase,
        crypto: Provider::Binance,
    };
    assert_eq!(provider_instances(&all).len(), 4);
}

#[test]
fn profile_getters_read_the_instrument() {
    let instrument = Instrument {
        symbol: "ETH-USD".to_owned(),
        name: "Ether".to_owned(),
        base: Some("ETH".to_owned()),
        quote: "USD".to_owned(),
        instrument_type: InstrumentType::Crypto,
        exchange: "KRAKEN".to_owned(),
        provider: Provider::Kraken,
    };
    let profile = InstrumentProfile::new(instrument, vec![(Interval::OneDay, 5)], vec![(Interval::OneDay, 9)], Vec::new());
    assert_eq!(profile.symbol(), "ETH-USD");
    assert_eq!(profile.name(), "Ether");
    assert_eq!(profile.instrument_type(), InstrumentType::Crypto);
    assert_eq!(profile.provider(), Provider::Kraken);
}
