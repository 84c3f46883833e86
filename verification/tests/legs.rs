use backtide_core::download::InstrumentProfile;
use backtide_core::legs::{
    conversion_quotes, conversion_route, direct_history_is_longer, direct_starts_first, distinct_legs,
    earliest_start, instrument_legs, is_priced_in, merge_profiles, pick_legs, pick_ordering,
    should_triangulate, triangulation_plan, LegsPick, PairPick, PairRequest, TriangulationStrategy,
};
use backtide_core::models::{DataError, Instrument, InstrumentType, Interval, Provider};

fn instrument(symbol: &str, base: Option<&str>, quote: &str) -> Instrument {
    Instrument {
        symbol: symbol.to_owned(),
        name: symbol.to_owned(),
        base: base.map(str::to_owned),
        quote: quote.to_owned(),
        instrument_type: InstrumentType::Stocks,
        exchange: "X".to_owned(),
        provider: Provider::Yahoo,
    }
}

fn profile(symbol: &str) -> InstrumentProfile {
    InstrumentProfile {
        instrument: instrument(symbol, None, "USD"),
        earliest_ts: vec![(Interval::OneDay, 10)],
        latest_ts: vec![(Interval::OneDay, 20)],
        legs: Vec::new(),
    }
}

#[test]
fn instruments_priced_in_the_base_need_no_legs() {
    assert!(is_priced_in(&instrument("AAPL", None, "USD"), "USD"));
    assert!(is_priced_in(&instrument("USD-JPY", Some("USD"), "JPY"), "USD"));
    assert!(!is_priced_in(&instrument("SAP", None, "EUR"), "USD"));
}

#[test]
fn conversion_quotes_are_distinct_in_first_seen_order() {
    let instruments = vec![
        instrument("SAP", None, "EUR"),
        instrument("AAPL", None, "USD"),
        instrument("TM", None, "JPY"),
        instrument("ADS", None, "EUR"),
    ];
    assert_eq!(conversion_quotes(&instruments, "USD"), vec!["EUR".to_owned(), "JPY".to_owned()]);
}

#[test]
fn fiat_quotes_route_through_the_fiat_currency() {
    assert_eq!(
        conversion_route("eur", "USD", "BTC", "USDT"),
        ("USD".to_owned(), "USD".to_owned(), InstrumentType::Forex)
    );
    assert_eq!(
        conversion_route("SOL", "USD", "BTC", "USDT"),
        ("BTC".to_owned(), "USDT".to_owned(), InstrumentType::Crypto)
    );
}

#[test]
fn triangulation_leaves_out_trivial_legs() {
    let legs = triangulation_plan("SOL", "BTC", "USD", "EUR", InstrumentType::Crypto).unwrap();
    assert_eq!(
        legs,
        vec![
            PairRequest { base: "SOL".to_owned(), quote: "BTC".to_owned(), instrument_type: InstrumentType::Crypto },
            PairRequest { base: "USD".to_owned(), quote: "EUR".to_owned(), instrument_type: InstrumentType::Forex },
        ]
    );
    let one = triangulation_plan("BTC", "BTC", "USDT", "EUR", InstrumentType::Crypto).unwrap();
    assert_eq!(one.len(), 1);
    assert_eq!(one[0].instrument_type, InstrumentType::Crypto);
    assert_eq!(
        triangulation_plan("USD", "USD", "EUR", "EUR", InstrumentType::Forex),
        Err(DataError::NoConversionPath { from: "USD".to_owned(), to: "EUR".to_owned() })
    );
}

#[test]
fn known_forex_pairs_decide_the_ordering() {
    assert_eq!(pick_ordering("EUR", "USD", true, true), PairPick::Direct);
    assert_eq!(pick_ordering("USD", "EUR", true, true), PairPick::Inverse);
    assert_eq!(pick_ordering("BTC", "ETH", true, true), PairPick::LongestHistory);
    assert_eq!(pick_ordering("BTC", "ETH", false, true), PairPick::Inverse);
    assert_eq!(pick_ordering("BTC", "ETH", true, false), PairPick::Direct);
    assert_eq!(pick_ordering("BTC", "ETH", false, false), PairPick::NotFound);
}

#[test]
fn longest_history_compares_earliest_starts() {
    let direct = vec![(Interval::OneDay, 500), (Interval::OneHour, 900)];
    let inverse = vec![(Interval::OneDay, 700)];
    assert_eq!(earliest_start(&direct), 500);
    assert_eq!(earliest_start(&Vec::new()), u64::MAX);
    assert!(direct_history_is_longer(&direct, &inverse));
    assert!(!direct_history_is_longer(&inverse, &direct));
    assert!(direct_history_is_longer(&direct, &direct));
}

#[test]
fn strategies_pick_the_conversion() {
    assert!(!should_triangulate(TriangulationStrategy::Direct, true));
    assert!(should_triangulate(TriangulationStrategy::Direct, false));
    assert!(should_triangulate(TriangulationStrategy::Earliest, true));
    assert_eq!(pick_legs(TriangulationStrategy::Direct, true, false), LegsPick::Direct);
    assert_eq!(pick_legs(TriangulationStrategy::Direct, false, true), LegsPick::Triangulated);
    assert_eq!(pick_legs(TriangulationStrategy::Direct, false, false), LegsPick::TriangulationError);
    assert_eq!(pick_legs(TriangulationStrategy::Earliest, true, true), LegsPick::EarliestStart);
    assert_eq!(pick_legs(TriangulationStrategy::Earliest, true, false), LegsPick::Direct);
    assert_eq!(pick_legs(TriangulationStrategy::Earliest, false, true), LegsPick::Triangulated);
    assert_eq!(pick_legs(TriangulationStrategy::Earliest, false, false), LegsPick::DirectError);
}

#[test]
fn triangulated_path_starts_when_its_last_leg_starts() {
    let direct = vec![(Interval::OneDay, 300)];
    let legs = vec![vec![(Interval::OneDay, 100)], vec![(Interval::OneDay, 250), (Interval::OneHour, 400)]];
    assert!(direct_starts_first(&direct, &legs));
    assert!(direct_starts_first(&vec![(Interval::OneDay, 400)], &legs));
    assert!(!direct_starts_first(&vec![(Interval::OneDay, 401)], &legs));
    assert!(direct_starts_first(&direct, &vec![vec![], vec![]]));
    assert!(direct_starts_first(&Vec::new(), &Vec::new()));
}

#[test]
fn legs_are_attached_to_instruments_by_quote() {
    let instruments = vec![
        instrument("SAP", None, "EUR"),
        instrument("AAPL", None, "USD"),
        instrument("TM", None, "JPY"),
    ];
    let resolved = vec![("EUR".to_owned(), vec![instrument("EUR-USD", Some("EUR"), "USD")])];
    assert_eq!(
        instrument_legs(&instruments, "USD", &resolved),
        vec![vec!["EUR-USD".to_owned()], Vec::new(), Vec::new()]
    );
}

#[test]
fn distinct_legs_keep_the_first_instrument_of_each_symbol() {
    let mut second_eur = instrument("EUR-USD", Some("EUR"), "USD");
    second_eur.name = "second".to_owned();
    let resolved = vec![
        ("EUR".to_owned(), vec![instrument("EUR-USD", Some("EUR"), "USD")]),
        ("GBP".to_owned(), vec![instrument("GBP-EUR", Some("GBP"), "EUR"), second_eur]),
    ];
    let legs = distinct_legs(&resolved);
    assert_eq!(legs.len(), 2);
    assert_eq!(legs[0].symbol, "EUR-USD");
    assert_eq!(legs[0].name, "EUR-USD");
    assert_eq!(legs[1].symbol, "GBP-EUR");
}

#[test]
fn merged_profiles_list_requested_instruments_first_without_repeats() {
    let merged = merge_profiles(vec![profile("SAP"), profile("EUR-USD")], vec![profile("EUR-USD"), profile("JPY-USD")]);
    let symbols: Vec<&str> = merged.iter().map(|p| p.instrument.symbol.as_str()).collect();
    assert_eq!(symbols, ["SAP", "EUR-USD", "JPY-USD"]);
}
