use backtide_core::currency::{Currency, ForexPair};
use backtide_core::download::{
    find_stored_range, last_row_per_date, plan_downloads, plan_interval, select_preview, select_rows,
    summarize_outcomes, DownloadTask, InstrumentProfile, ProviderConfig, StoredRange, TaskOutcome,
};
use backtide_core::experiment_log::{append_field, is_experiment_span, log_line, log_path_value};
use backtide_core::indicators::indicator_deterministic_name;
use backtide_core::metrics::{
    builtin_metric_definitions, default_metrics, is_builtin_metric, MetricDefinition, MetricSelection, DEFAULT_METRICS,
};
use backtide_core::models::{DownloadResult, Instrument, InstrumentType, Interval, Provider};

#[test]
fn default_metrics_follow_the_result_summary_priority() {
    assert_eq!(
        DEFAULT_METRICS,
        [
            "sharpe",
            "total_return",
            "pnl",
            "max_dd",
            "cagr",
            "n_trades",
            "win_rate",
            "sortino",
            "ann_volatility",
            "final_equity",
            "excess_return",
            "alpha",
        ],
    );
    assert_eq!(default_metrics(), DEFAULT_METRICS.map(str::to_owned).to_vec());
}

#[test]
fn every_default_metric_is_builtin() {
    for key in DEFAULT_METRICS {
        assert!(is_builtin_metric(key));
    }
    assert!(!is_builtin_metric("omega"));
    assert!(is_builtin_metric("calmar"));
}

#[test]
fn builtin_catalog_lists_each_metric_once() {
    let defs = builtin_metric_definitions();
    assert_eq!(defs.len(), 21);
    let mut keys: Vec<&str> = defs.iter().map(|d| d.key.as_str()).collect();
    keys.sort_unstable();
    keys.dedup();
    assert_eq!(keys.len(), 21);
    let vol = defs.iter().find(|d| d.key == "ann_volatility").unwrap();
    assert!(vol.percentage);
    assert!(!vol.higher_is_better);
    assert_eq!(defs[0].name, "Total return");
}

#[test]
fn metric_definition_representation_quotes_its_strings() {
    let d = MetricDefinition::new("win_rate", "Win \"rate\"", "x", true, true);
    assert_eq!(d.__repr__(), "MetricDefinition(key=\"win_rate\", name=\"Win \\\"rate\\\"\")");
}

#[test]
fn metric_selection_keeps_first_occurrences() {
    let mut names = vec!["sharpe".to_owned()];
    MetricSelection::push_name(&mut names, "pnl".to_owned());
    MetricSelection::push_name(&mut names, "sharpe".to_owned());
    assert_eq!(names, ["sharpe", "pnl"]);
    let selection = MetricSelection::from_names(names);
    assert_eq!(selection.names().len(), 2);
    assert!(MetricSelection::default().names().is_empty());
}

#[test]
fn indicator_names_are_sanitized() {
    let args = vec!["20".to_owned(), "2.0".to_owned(), "-1".to_owned(), "a b".to_owned()];
    assert_eq!(indicator_deterministic_name("BB", &args), "BB_20_2p0_n1_ab");
    assert_eq!(indicator_deterministic_name("SMA", &Vec::new()), "SMA");
    assert_eq!(indicator_deterministic_name("X", &vec![" ".to_owned()]), "X");
}

#[test]
fn experiment_log_lines() {
    assert!(is_experiment_span("experiment"));
    assert!(!is_experiment_span("not_experiment"));
    let mut body = String::new();
    append_field(&mut body, "message", "completed");
    append_field(&mut body, "symbol", "AAPL");
    append_field(&mut body, "count", "2");
    assert_eq!(body, "completed symbol=AAPL count=2");
    let mut fields_only = String::new();
    append_field(&mut fields_only, "result", "Some(3)");
    assert_eq!(fields_only, "result=Some(3)");
    assert_eq!(log_line("T", "INFO", "backtide", "done"), "T INFO  backtide: done");
    assert_eq!(log_line("T", "ERROR", "x", ""), "T ERROR x: ");
    assert_eq!(log_path_value("log_path", "/tmp/a.txt", false), Some("/tmp/a.txt".to_owned()));
    assert_eq!(log_path_value("log_path", "\"/tmp/a.txt\"", true), Some("/tmp/a.txt".to_owned()));
    assert_eq!(log_path_value("other", "/tmp", false), None);
}

#[test]
fn currencies_and_pairs_parse_ignoring_case() {
    assert_eq!(Currency::parse("eur"), Some(Currency::EUR));
    assert_eq!(Currency::parse("EURO"), None);
    assert_eq!(Currency::EUR.code(), "EUR");
    assert_eq!(ForexPair::parse("eurusd"), Some(ForexPair::EURUSD));
    assert_eq!(ForexPair::new("USDEUR").unwrap_err(), "Unknown forex pair: USDEUR");
    assert_eq!(ForexPair::EURUSD.label(), "EUR/USD");
    assert_eq!(ForexPair::EURUSD.base(), Currency::EUR);
    assert_eq!(ForexPair::EURUSD.quote(), Currency::USD);
}

#[test]
fn download_result_representation() {
    let r = DownloadResult { n_succeeded: 2, n_failed: 1, warnings: vec!["AAPL (1d): boom".to_owned()] };
    assert_eq!(r.__repr__(), "DownloadResult(n_succeeded=2, n_failed=1, warnings=[\"AAPL (1d): boom\"])");
}

#[test]
fn outcomes_become_counts_and_warnings() {
    let outcomes = vec![
        TaskOutcome { symbol: "AAPL".to_owned(), interval: Interval::OneDay, error: None },
        TaskOutcome { symbol: "MSFT".to_owned(), interval: Interval::OneHour, error: Some("timeout".to_owned()) },
    ];
    let r = summarize_outcomes(&outcomes);
    assert_eq!(r.n_succeeded, 1);
    assert_eq!(r.n_failed, 1);
    assert_eq!(r.warnings, ["MSFT (1h): timeout"]);
}

#[test]
fn planned_ranges_skip_stored_coverage() {
    assert_eq!(plan_interval(0, 1_000, None, None, None, Interval::OneMinute), vec![(0, 1_000)]);
    assert_eq!(plan_interval(0, 1_000, Some(100), Some(500), None, Interval::OneMinute), vec![(100, 500)]);
    assert!(plan_interval(0, 1_000, None, None, Some((0, 1_000)), Interval::OneMinute).is_empty());
    assert_eq!(
        plan_interval(0, 10_000, None, None, Some((3_000, 5_000)), Interval::OneMinute),
        vec![(0, 3_000), (5_000, 10_000)]
    );
    assert!(plan_interval(500, 100, None, None, None, Interval::OneDay).is_empty());
}

#[test]
fn download_plan_uses_the_configured_provider() {
    let profile = InstrumentProfile {
        instrument: Instrument {
            symbol: "BTC-USD".to_owned(),
            name: "BTC-USD".to_owned(),
            base: Some("BTC".to_owned()),
            quote: "USD".to_owned(),
            instrument_type: InstrumentType::Crypto,
            exchange: "KRAKEN".to_owned(),
            provider: Provider::Kraken,
        },
        earliest_ts: vec![(Interval::OneDay, 0)],
        latest_ts: vec![(Interval::OneDay, 864_000)],
        legs: Vec::new(),
    };
    let providers = ProviderConfig {
        stocks: Provider::Yahoo,
        etf: Provider::Yahoo,
        forex: Provider::Yahoo,
        crypto: Provider::Kraken,
    };
    let stored = vec![StoredRange {
        symbol: "BTC-USD".to_owned(),
        interval: Interval::OneDay,
        provider: Provider::Kraken,
        first_ts: 0,
        last_ts: 432_000,
    }];
    assert_eq!(find_stored_range(&stored, "BTC-USD", Interval::OneDay, Provider::Kraken), Some((0, 432_000)));
    assert_eq!(find_stored_range(&stored, "BTC-USD", Interval::OneDay, Provider::Binance), None);
    let tasks = plan_downloads(&vec![profile], &providers, None, None, &stored);
    assert_eq!(
        tasks,
        vec![DownloadTask {
            symbol: "BTC-USD".to_owned(),
            instrument_type: InstrumentType::Crypto,
            interval: Interval::OneDay,
            start: 432_000,
            end: 864_000,
        }]
    );
}

#[test]
fn rows_are_selected_in_order_without_repeats() {
    let ts = vec![30, 10, 20, 10, 40];
    assert_eq!(select_rows(&ts, 10, 40), vec![1, 2, 0]);
    assert_eq!(select_preview(&ts, 2), vec![0, 4]);
    assert_eq!(last_row_per_date(&vec![5, 7, 5, 9]), vec![3, 2, 1]);
}

#[test]
fn replanning_a_stored_window_requests_nothing() {
    let first = plan_interval(100, 5_000, Some(200), Some(4_000), Some((1_000, 2_000)), Interval::OneMinute);
    assert_eq!(first, vec![(200, 1_000), (2_000, 4_000)]);
    for &(a, b) in &first {
        assert!(200 <= a && a < b && b <= 4_000);
    }
    assert!(plan_interval(100, 5_000, Some(200), Some(4_000), Some((200, 4_000)), Interval::OneMinute).is_empty());
}

#[test]
fn stored_bars_within_one_interval_of_both_ends_cover_the_window() {
    assert!(plan_interval(0, 10_000, None, None, Some((60, 9_940)), Interval::OneMinute).is_empty());
    assert_eq!(
        plan_interval(0, 10_000, None, None, Some((61, 9_940)), Interval::OneMinute),
        vec![(0, 61)]
    );
    assert_eq!(
        plan_interval(0, 10_000, None, None, Some((60, 9_939)), Interval::OneMinute),
        vec![(9_939, 10_000)]
    );
}

#[test]
fn every_pair_name_gives_the_pair_back() {
    for code in ["EURUSD", "USDJPY", "AUDNZD", "USDZAR"] {
        let p = ForexPair::new(code).unwrap();
        assert_ne!(p.base(), p.quote());
        let name = format!("{}{}", p.base().code(), p.quote().code());
        assert_eq!(name, code);
        assert_eq!(ForexPair::new(&name), Ok(p));
    }
    assert_eq!(Currency::parse(&Currency::CHF.code()), Some(Currency::CHF));
}
