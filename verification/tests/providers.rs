use backtide_core::coinbase::{Coinbase, ProductInfo};
use backtide_core::kraken::{Kraken, KrakenResponse, PairInfo};
use backtide_core::models::{DataError, InstrumentType, Interval, Provider};
use backtide_core::symbols::canonical_symbol;

#[test]
fn interval_granularity_one_week_unsupported() {
    assert!(Coinbase::interval_granularity(Interval::OneWeek).is_err());
}

#[test]
fn interval_granularity_supported_cases() {
    let cases = [
        (Interval::OneMinute, "ONE_MINUTE"),
        (Interval::FiveMinutes, "FIVE_MINUTE"),
        (Interval::FifteenMinutes, "FIFTEEN_MINUTE"),
        (Interval::ThirtyMinutes, "THIRTY_MINUTE"),
        (Interval::OneHour, "ONE_HOUR"),
        (Interval::FourHours, "FOUR_HOUR"),
        (Interval::OneDay, "ONE_DAY"),
    ];
    for (iv, expected) in cases {
        assert_eq!(Coinbase::interval_granularity(iv).unwrap(), expected);
    }
    assert_eq!(
        Coinbase::interval_granularity(Interval::OneWeek),
        Err(DataError::UnsupportedInterval(Interval::OneWeek))
    );
}

#[test]
fn coinbase_check_instrument_type_cases() {
    assert!(Coinbase::check_instrument_type(InstrumentType::Crypto).is_ok());
    assert!(Coinbase::check_instrument_type(InstrumentType::Stocks).is_err());
    assert!(Coinbase::check_instrument_type(InstrumentType::Forex).is_err());
    assert_eq!(
        Coinbase::check_instrument_type(InstrumentType::Etf),
        Err(DataError::UnsupportedInstrumentType(InstrumentType::Etf))
    );
}

#[test]
fn instrument_from_product_info() {
    let info = ProductInfo {
        product_id: "BTC-USD".to_owned(),
        base_currency_id: "BTC".to_owned(),
        quote_currency_id: "USD".to_owned(),
        status: Some("online".to_owned()),
        new_at: None,
    };
    let inst = Coinbase::instrument_from_product(&info).unwrap();
    assert_eq!(inst.symbol, "BTC-USD");
    assert_eq!(inst.base, Some("BTC".to_owned()));
    assert_eq!(inst.quote, "USD");
    assert_eq!(inst.instrument_type, InstrumentType::Crypto);
    assert_eq!(inst.provider, Provider::Coinbase);
}

#[test]
fn kraken_normalize_ticker_cases() {
    for (input, expected) in [("XBT", "BTC"), ("XDG", "DOGE"), ("ETH", "ETH"), ("USD", "USD"), ("SOL", "SOL")] {
        assert_eq!(Kraken::normalize_ticker(input), expected);
    }
}

#[test]
fn kraken_check_instrument_type_cases() {
    assert!(Kraken::check_instrument_type(InstrumentType::Crypto).is_ok());
    assert!(Kraken::check_instrument_type(InstrumentType::Forex).is_ok());
    assert!(Kraken::check_instrument_type(InstrumentType::Stocks).is_err());
    assert!(Kraken::check_instrument_type(InstrumentType::Etf).is_err());
}

#[test]
fn kraken_parse_canonical_symbol_translates_legs() {
    let kraken = Kraken;
    assert_eq!(kraken.parse_canonical_symbol("BTC-USD"), "XBTUSD");
    assert_eq!(kraken.parse_canonical_symbol("DOGE-EUR"), "XDGEUR");
    assert_eq!(kraken.parse_canonical_symbol("ETH-BTC"), "ETHXBT");
}

#[test]
fn unwrap_response_ok() {
    let resp = KrakenResponse { error: vec![], result: Some(42) };
    assert_eq!(Kraken::unwrap_response(resp, "TEST").unwrap(), 42);
}

#[test]
fn unwrap_response_unknown_pair() {
    let resp: KrakenResponse<i32> = KrakenResponse {
        error: vec!["EQuery:Unknown asset pair".to_owned()],
        result: None,
    };
    let err = Kraken::unwrap_response(resp, "INVALID").unwrap_err();
    assert!(matches!(err, DataError::SymbolNotFound(_)));
}

#[test]
fn unwrap_response_other_error() {
    let resp: KrakenResponse<i32> = KrakenResponse {
        error: vec!["EGeneral:Internal error".to_owned()],
        result: None,
    };
    let err = Kraken::unwrap_response(resp, "TEST").unwrap_err();
    match err {
        DataError::UnexpectedResponse(message) => assert!(message.contains("Internal error")),
        other => panic!("unexpected error {other:?}"),
    }
}

#[test]
fn unwrap_response_no_result() {
    let resp: KrakenResponse<i32> = KrakenResponse { error: vec![], result: None };
    assert!(Kraken::unwrap_response(resp, "TEST").is_err());
}

#[test]
fn unwrap_response_reports_the_first_error() {
    let resp: KrakenResponse<i32> = KrakenResponse {
        error: vec!["EGeneral:A".to_owned(), "EService:B".to_owned()],
        result: Some(1),
    };
    assert_eq!(
        Kraken::unwrap_response(resp, "X"),
        Err(DataError::UnexpectedResponse("EGeneral:A".to_owned()))
    );
}

#[test]
fn instrument_from_pair_info_crypto() {
    let info = PairInfo {
        wsname: Some("XBT/USD".to_owned()),
        altname: "XBTUSD".to_owned(),
        base: "XXBT".to_owned(),
        quote: "ZUSD".to_owned(),
        status: "online".to_owned(),
    };
    let inst = Kraken::instrument_from_pair(&info).unwrap();
    assert_eq!(inst.symbol, "BTC-USD");
    assert_eq!(inst.base, Some("BTC".to_owned()));
    assert_eq!(inst.quote, "USD");
    assert_eq!(inst.provider, Provider::Kraken);
}

#[test]
fn instrument_from_pair_info_forex() {
    let info = PairInfo {
        wsname: Some("EUR/USD".to_owned()),
        altname: "EURUSD".to_owned(),
        base: "ZEUR".to_owned(),
        quote: "ZUSD".to_owned(),
        status: "online".to_owned(),
    };
    let inst = Kraken::instrument_from_pair(&info).unwrap();
    assert_eq!(inst.instrument_type, InstrumentType::Forex);
}

#[test]
fn instrument_from_pair_info_no_wsname() {
    let info = PairInfo {
        wsname: None,
        altname: "ETHBTC".to_owned(),
        base: "ETH".to_owned(),
        quote: "BTC".to_owned(),
        status: "online".to_owned(),
    };
    let inst = Kraken::instrument_from_pair(&info).unwrap();
    assert_eq!(inst.base, Some("ETH".to_owned()));
    assert_eq!(inst.quote, "BTC");
}

#[test]
fn test_canonical_symbol_with_base() {
    let result = canonical_symbol("BTCUSD", &Some("BTC".to_owned()), &"USD".to_owned());
    assert_eq!(result, "BTC-USD");
}

#[test]
fn test_canonical_symbol_without_base() {
    let result = canonical_symbol("AAPL", &None, &"USD".to_owned());
    assert_eq!(result, "AAPL");
}

#[test]
fn kraken_cursor_advances_past_the_last_bar() {
    assert_eq!(Kraken::next_cursor(0, 600, 10_000, Interval::OneMinute, true), Some(660));
    assert_eq!(Kraken::next_cursor(0, 10_000, 10_000, Interval::OneMinute, true), None);
    assert_eq!(Kraken::next_cursor(0, 9_990, 10_000, Interval::OneMinute, false), None);
    assert_eq!(Kraken::next_cursor(0, 9_990, 10_000, Interval::OneMinute, true), Some(10_050));
    assert_eq!(Kraken::next_cursor(700, 600, 10_000, Interval::OneMinute, true), None);
}

#[test]
fn coinbase_listing_start_parses_rfc3339() {
    assert_eq!(Coinbase::listing_start("2021-01-01T00:00:00Z").unwrap(), 1_609_459_200);
    assert!(matches!(Coinbase::listing_start("not a date"), Err(DataError::UnexpectedResponse(_))));
}

#[test]
fn coinbase_latest_and_fallback_uses_the_probe() {
    assert_eq!(Coinbase::latest_and_fallback(&vec![300, 100, 200], "BTC-USD"), Ok((300, 100)));
    assert_eq!(
        Coinbase::latest_and_fallback(&vec![], "BTC-USD"),
        Err(DataError::SymbolNotFound("BTC-USD".to_owned()))
    );
}

#[test]
fn kraken_ticker_round_trip() {
    let kraken = Kraken;
    for t in ["BTC", "DOGE", "ETH", "USD"] {
        assert_eq!(Kraken::normalize_ticker(&kraken.parse_canonical_symbol(t)), t);
    }
    assert_eq!(Kraken::normalize_ticker(&kraken.parse_canonical_symbol("XBT")), "BTC");
}
