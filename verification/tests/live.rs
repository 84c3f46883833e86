use backtide_core::chrono_queue::{latest_per_symbol, queue_chronological_update, BarUpdate, PartialBars};
use backtide_core::live::{
    catalog_request, exponential_backoff, kraken_open_ts, millis_to_seconds, received_ts, subscription_message, timestamp_from_clock,
    support_message, validate_batch_size, validate_feed, validate_subscription, LiveStreamError, Subscription,
};
use backtide_core::models::{Interval, Provider};
use backtide_core::symbols::{
    canonical_symbol_map, compact_symbol, dash_symbol, provider_symbol_key, quote_currency, route_update, slash_symbol,
};
use std::collections::VecDeque;

#[test]
fn yahoo_limitation_is_explicit() {
    let error = support_message(Provider::Yahoo, Interval::OneMinute).unwrap_err();
    assert!(error.contains("does not expose an official"));
}

#[test]
fn coinbase_rejects_non_five_minute_candles() {
    assert!(support_message(Provider::Coinbase, Interval::OneMinute).is_err());
    assert!(support_message(Provider::Coinbase, Interval::FiveMinutes).is_ok());
}

#[test]
fn rejects_empty_or_whitespace_subscription_symbols() {
    for symbols in [Vec::new(), vec![" ".to_owned()]] {
        let error = validate_subscription(Provider::Binance, &symbols, Interval::OneMinute).unwrap_err();

        assert!(error.message().contains("non-empty symbol"));
    }
}

#[test]
fn validate_subscription_reports_unsupported_provider_first() {
    let error = validate_subscription(Provider::Yahoo, &Vec::new(), Interval::OneMinute).unwrap_err();
    assert!(matches!(&error, LiveStreamError::Unsupported(m) if m.starts_with("Yahoo Finance")));
    assert!(validate_subscription(Provider::Kraken, &vec!["BTC-USD".to_owned()], Interval::OneHour).is_ok());
}

#[test]
fn builds_provider_specific_subscription_messages() {
    let symbols = vec!["BTC-USD".to_owned(), "ETH-USD".to_owned()];

    assert_eq!(
        subscription_message(Provider::Binance, &symbols, Interval::OneMinute).unwrap(),
        Subscription::Binance { params: vec!["btcusd@kline_1m".to_owned(), "ethusd@kline_1m".to_owned()] }
    );
    assert_eq!(
        subscription_message(Provider::Coinbase, &symbols, Interval::FiveMinutes).unwrap(),
        Subscription::Coinbase { product_ids: vec!["BTC-USD".to_owned(), "ETH-USD".to_owned()] }
    );
    assert_eq!(
        subscription_message(Provider::Kraken, &symbols, Interval::FifteenMinutes).unwrap(),
        Subscription::Kraken { symbols: vec!["BTC/USD".to_owned(), "ETH/USD".to_owned()], interval_minutes: 15 }
    );
    assert!(subscription_message(Provider::Yahoo, &symbols, Interval::OneMinute).is_err());
}

#[test]
fn reconnect_backoff_is_exponential_and_capped() {
    let initial = 100_000_000;
    assert_eq!(exponential_backoff(initial, 0), 100_000_000);
    assert_eq!(exponential_backoff(initial, 3), 800_000_000);
    assert_eq!(exponential_backoff(initial, 20), 5_000_000_000);
}

#[test]
fn backoff_exponent_is_capped_at_eight_doublings() {
    assert_eq!(exponential_backoff(1_000, 8), 256_000);
    assert_eq!(exponential_backoff(1_000, 30), 256_000);
    assert_eq!(exponential_backoff(u64::MAX, 1), 5_000_000_000);
}

#[test]
fn canonical_map_normalizes_binance_and_kraken_aliases() {
    let binance = canonical_symbol_map(Provider::Binance, &vec!["BTC-USDT".to_owned()]);
    assert_eq!(binance.get("BTCUSDT").unwrap(), "BTC-USDT");

    let kraken = canonical_symbol_map(Provider::Kraken, &vec!["BTC-USD".to_owned()]);
    assert_eq!(kraken.get("BTC/USD").unwrap(), "BTC-USD");
    assert_eq!(kraken.get("XBT/USD").unwrap(), "BTC-USD");
}

#[test]
fn canonical_map_has_no_entry_for_unrequested_symbols() {
    let coinbase = canonical_symbol_map(Provider::Coinbase, &vec!["eth_usd".to_owned()]);
    assert_eq!(coinbase.get("ETH-USD").unwrap(), "ETH-USD");
    assert!(coinbase.get("BTC-USD").is_none());
    assert_eq!(coinbase.len(), 1);
}

#[test]
fn symbol_spellings_per_provider() {
    assert_eq!(compact_symbol("BTC-USD_T/X"), "btcusdtx");
    assert_eq!(dash_symbol("btc/usd_x"), "BTC-USD-X");
    assert_eq!(slash_symbol("btc-usd_x"), "BTC/USD/X");
    assert_eq!(provider_symbol_key(Provider::Binance, "btc-usdt"), "BTCUSDT");
    assert_eq!(provider_symbol_key(Provider::Coinbase, "btc/usd"), "BTC-USD");
    assert_eq!(provider_symbol_key(Provider::Kraken, "btc-usd"), "BTC/USD");
    assert_eq!(provider_symbol_key(Provider::Yahoo, "aapl"), "AAPL");
}

fn partial_update(open_ts: u64, id: u64) -> BarUpdate {
    BarUpdate { symbol: "BTC-USD".to_owned(), open_ts, is_final: false, id }
}

#[test]
fn older_snapshot_candles_do_not_replace_current_partial() {
    let mut queued = VecDeque::new();
    let mut partial = PartialBars::new();
    queue_chronological_update(&mut queued, &mut partial, partial_update(2_000, 101));
    queued.clear();

    queue_chronological_update(&mut queued, &mut partial, partial_update(1_000, 99));

    assert!(queued.is_empty());
    assert_eq!(partial.get("BTC-USD").unwrap().open_ts, 2_000);
    assert_eq!(partial.get("BTC-USD").unwrap().id, 101);
}

#[test]
fn equal_partial_replaces_and_newer_partial_finalizes() {
    let mut queued = VecDeque::new();
    let mut partial = PartialBars::new();
    queue_chronological_update(&mut queued, &mut partial, partial_update(1_000, 100));
    queued.clear();

    queue_chronological_update(&mut queued, &mut partial, partial_update(1_000, 101));
    assert_eq!(queued.pop_front().unwrap().id, 101);
    assert_eq!(partial.get("BTC-USD").unwrap().id, 101);

    queue_chronological_update(&mut queued, &mut partial, partial_update(1_300, 102));
    let finalized = queued.pop_front().unwrap();
    assert_eq!(finalized.open_ts, 1_000);
    assert!(finalized.is_final);
    assert_eq!(queued.pop_front().unwrap().open_ts, 1_300);
    assert_eq!(partial.get("BTC-USD").unwrap().open_ts, 1_300);
}

#[test]
fn final_update_clears_the_pending_partial() {
    let mut queued = VecDeque::new();
    let mut partial = PartialBars::new();
    queue_chronological_update(&mut queued, &mut partial, partial_update(1_000, 1));
    let mut closing = partial_update(1_000, 2);
    closing.is_final = true;
    queue_chronological_update(&mut queued, &mut partial, closing);
    assert_eq!(queued.len(), 2);
    assert!(queued[1].is_final);
    assert!(partial.get("BTC-USD").is_none());
}

#[test]
fn stale_final_update_is_ignored() {
    let mut queued = VecDeque::new();
    let mut partial = PartialBars::new();
    queue_chronological_update(&mut queued, &mut partial, partial_update(5_000, 1));
    let mut stale = partial_update(4_000, 2);
    stale.is_final = true;
    queue_chronological_update(&mut queued, &mut partial, stale);
    assert_eq!(queued.len(), 1);
    assert_eq!(partial.get("BTC-USD").unwrap().id, 1);
}

#[test]
fn live_instrument_catalog_validates_before_network_access() {
    let yahoo = catalog_request(Provider::Yahoo, 100).unwrap_err();
    assert!(yahoo.contains("does not expose"));

    let empty = catalog_request(Provider::Kraken, 0).unwrap_err();
    assert!(empty.contains("limit must be positive"));

    assert_eq!(catalog_request(Provider::Kraken, 50_000), Ok(10_000));
    assert_eq!(catalog_request(Provider::Binance, 7), Ok(7));
}

#[test]
fn live_feed_settings_are_validated() {
    let symbols = vec!["BTC-USDT".to_owned()];
    assert_eq!(
        validate_feed(Provider::Binance, &symbols, Interval::OneMinute, 0),
        Err("reconnect_attempts must be positive".to_owned())
    );
    assert!(validate_feed(Provider::Binance, &symbols, Interval::OneMinute, 3).is_ok());
    assert_eq!(
        validate_feed(Provider::Binance, &vec![" \t".to_owned()], Interval::OneMinute, 3),
        Err("at least one non-empty symbol is required".to_owned())
    );
    assert!(validate_feed(Provider::Coinbase, &symbols, Interval::OneMinute, 3).unwrap_err().contains("five-minute"));
}

#[test]
fn batch_size_must_be_positive() {
    assert!(validate_batch_size(0).unwrap_err().contains("max_events"));
    assert!(validate_batch_size(1).is_ok());
}

#[test]
fn stream_timestamps_are_interpreted() {
    assert_eq!(millis_to_seconds(1_700_000_000_999), 1_700_000_000);
    assert_eq!(kraken_open_ts("2023-11-14T22:14:20Z"), Ok(1_700_000_060));
    assert!(matches!(
        kraken_open_ts("1969-12-31T23:59:59Z"),
        Err(LiveStreamError::InvalidMessage(m)) if m == "Kraken timestamp predates Unix epoch"
    ));
    assert!(matches!(kraken_open_ts("yesterday"), Err(LiveStreamError::InvalidMessage(_))));
    assert!(received_ts() > 1_600_000_000);
}

#[test]
fn stream_errors_render_like_their_display() {
    assert_eq!(LiveStreamError::Unsupported("no".to_owned()).message(), "no");
    assert_eq!(LiveStreamError::WebSocket("reset".to_owned()).message(), "websocket error: reset");
    assert_eq!(
        LiveStreamError::InvalidMessage("bad candle".to_owned()).message(),
        "invalid provider message: bad candle"
    );
}

#[test]
fn snapshots_keep_only_the_latest_candle_per_symbol() {
    let candles = vec![
        ("BTC-USD".to_owned(), 1_700_000_000),
        ("BTC-USD".to_owned(), 1_700_000_060),
        ("ETH-USD".to_owned(), 1_700_000_000),
        ("ETH-USD".to_owned(), 1_700_000_060),
    ];
    let kept = latest_per_symbol(&candles);
    assert_eq!(kept.len(), 2);
    assert!(kept.iter().all(|&i| candles[i].1 == 1_700_000_060));
    let mut symbols: Vec<&str> = kept.iter().map(|&i| candles[i].0.as_str()).collect();
    symbols.sort_unstable();
    assert_eq!(symbols, ["BTC-USD", "ETH-USD"]);
}

#[test]
fn snapshot_candles_are_ordered_by_open_time() {
    let candles = vec![
        ("BTC-USD".to_owned(), 100),
        ("BTC-USD".to_owned(), 300),
        ("ETH-USD".to_owned(), 50),
        ("ETH-USD".to_owned(), 200),
        ("SOL-USD".to_owned(), 200),
        ("SOL-USD".to_owned(), 200),
    ];
    let kept = latest_per_symbol(&candles);
    assert_eq!(kept, vec![3, 4, 1]);
    assert!(latest_per_symbol(&Vec::new()).is_empty());
}

#[test]
fn streamed_symbols_are_routed_to_their_canonical_form() {
    let kraken = canonical_symbol_map(Provider::Kraken, &vec!["BTC-USD".to_owned()]);
    assert_eq!(route_update(&kraken, Provider::Kraken, "XBT/USD"), Some(("BTC-USD".to_owned(), Some("USD".to_owned()))));
    assert_eq!(route_update(&kraken, Provider::Kraken, "ETH/USD"), None);
    let binance = canonical_symbol_map(Provider::Binance, &vec!["eth-usdt".to_owned()]);
    assert_eq!(route_update(&binance, Provider::Binance, "ETHUSDT"), Some(("ETH-USDT".to_owned(), Some("USDT".to_owned()))));
    assert_eq!(quote_currency("AAPL"), None);
    assert_eq!(quote_currency("A-B-C"), Some("C".to_owned()));
    assert_eq!(quote_currency("BTC-"), Some(String::new()));
}

#[test]
fn clock_readings_become_timestamps() {
    assert_eq!(timestamp_from_clock(Some(1_700_000_000)), 1_700_000_000);
    assert_eq!(timestamp_from_clock(None), 0);
    assert_eq!(timestamp_from_clock(Some(u64::MAX)), i64::MAX);
}
