use backtide_core::models::{Instrument, InstrumentType, Interval, Provider};
use backtide_core::storage::{
    delete_symbols_plan, escape_quotes, experiment_tags, instrument_delete_sql, instrument_type_label,
    is_stale_transaction, query_bars_sql, query_dividends_sql, query_experiments_sql, query_instruments_sql, tx_start,
    tx_step, TxAction, TxEvent, TxPhase,
};

const BARS: &str = "SELECT symbol, interval, provider,\n                    open_ts, close_ts, open_ts_exchange,\n                    open, high, low, close, adj_close, volume, n_trades\n             FROM bars";

#[test]
fn bar_query_without_filters_orders_every_row() {
    let q = query_bars_sql(None, None, None, None);
    assert_eq!(q.sql, format!("{BARS} ORDER BY symbol, interval, open_ts"));
    assert!(q.params.is_empty());
}

#[test]
fn bar_query_filters_with_one_placeholder_per_value() {
    let symbols = vec!["AAPL".to_owned(), "MSFT".to_owned()];
    let intervals = vec![Interval::OneDay];
    let providers = vec![Provider::Yahoo, Provider::Kraken];
    let q = query_bars_sql(Some(&symbols), Some(&intervals), Some(&providers), Some(5));
    assert_eq!(
        q.sql,
        format!(
            "{BARS} WHERE symbol IN (?, ?) AND interval IN (?) AND provider IN (?, ?) ORDER BY symbol, interval, open_ts LIMIT 5"
        )
    );
    assert_eq!(q.params, ["AAPL", "MSFT", "1d", "yahoo", "kraken"]);
}

#[test]
fn empty_filter_lists_do_not_filter() {
    let q = query_bars_sql(Some(&Vec::new()), Some(&Vec::new()), Some(&vec![Provider::Binance]), None);
    assert_eq!(q.sql, format!("{BARS} WHERE provider IN (?) ORDER BY symbol, interval, open_ts"));
    assert_eq!(q.params, ["binance"]);
}

#[test]
fn dividend_and_instrument_queries() {
    let d = query_dividends_sql(Some(&vec!["KO".to_owned()]), None, Some(0));
    assert_eq!(
        d.sql,
        "SELECT symbol, provider, ex_date, amount\n             FROM dividends WHERE symbol IN (?) ORDER BY symbol, ex_date LIMIT 0"
    );
    assert_eq!(d.params, ["KO"]);

    let types = vec![InstrumentType::Crypto, InstrumentType::Etf];
    let exchanges = vec!["NASDAQ".to_owned()];
    let i = query_instruments_sql(Some(&types), None, Some(&exchanges), Some(10));
    assert_eq!(
        i.sql,
        "SELECT symbol, provider, instrument_type, name, base, quote, exchange\n             FROM instruments WHERE instrument_type IN (?, ?) AND exchange IN (?) ORDER BY symbol LIMIT 10"
    );
    assert_eq!(i.params, ["crypto", "etf", "NASDAQ"]);
    assert_eq!(instrument_type_label(InstrumentType::Stocks), "stocks");
    assert_eq!(instrument_type_label(InstrumentType::Forex), "forex");
}

#[test]
fn experiment_search_is_case_insensitive() {
    let ids = vec!["e1".to_owned()];
    let q = query_experiments_sql(Some(&ids), Some("MoMentum"), Some(3));
    assert!(q.sql.ends_with(
        " WHERE e.id IN (?) AND (LOWER(name) LIKE ? OR LOWER(tags) LIKE ?) ORDER BY started_at DESC LIMIT 3"
    ));
    assert!(q.sql.starts_with("SELECT e.id, e.name, e.icon, e.tags"));
    assert_eq!(q.params, ["e1", "%momentum%", "%momentum%"]);

    let all = query_experiments_sql(Some(&Vec::new()), Some(""), None);
    assert!(all.sql.ends_with("FROM experiments e ORDER BY started_at DESC"));
    assert!(all.params.is_empty());

    let unicode = query_experiments_sql(None, Some("ÉTÉ"), None);
    assert_eq!(unicode.params, ["%été%", "%été%"]);
}

#[test]
fn quotes_are_doubled_inside_sql_literals() {
    assert_eq!(escape_quotes("O'Reilly"), "O''Reilly");
    assert_eq!(escape_quotes("''"), "''''");
    assert_eq!(escape_quotes("plain"), "plain");
}

#[test]
fn written_instruments_replace_their_stored_rows() {
    let mut a = Instrument {
        symbol: "BRK'A".to_owned(),
        name: "Berkshire".to_owned(),
        base: None,
        quote: "USD".to_owned(),
        instrument_type: InstrumentType::Stocks,
        exchange: "NYSE".to_owned(),
        provider: Provider::Yahoo,
    };
    assert_eq!(instrument_delete_sql(&Vec::new()), None);
    let one = instrument_delete_sql(&vec![a.clone()]).unwrap();
    assert_eq!(one, "DELETE FROM instruments WHERE (symbol, provider) IN (('BRK''A', 'yahoo'))");
    a.symbol = "BTC-USD".to_owned();
    a.provider = Provider::Kraken;
    let b = Instrument { symbol: "ETH-USD".to_owned(), provider: Provider::Coinbase, ..a.clone() };
    assert_eq!(
        instrument_delete_sql(&vec![a, b]).unwrap(),
        "DELETE FROM instruments WHERE (symbol, provider) IN (('BTC-USD', 'kraken'), ('ETH-USD', 'coinbase'))"
    );
}

#[test]
fn deleting_series_groups_them_by_filter() {
    assert!(delete_symbols_plan(&Vec::new()).is_none());
    let series = vec![
        ("AAPL".to_owned(), None, None),
        ("MSFT".to_owned(), Some(Interval::OneDay), None),
        ("BTC-USD".to_owned(), None, Some(Provider::Kraken)),
        ("ETH-USD".to_owned(), Some(Interval::OneHour), Some(Provider::Binance)),
        ("AAPL".to_owned(), None, None),
    ];
    let plan = delete_symbols_plan(&series).unwrap();
    assert_eq!(
        plan.bar_deletes,
        [
            "DELETE FROM bars WHERE symbol IN ('AAPL', 'AAPL')",
            "DELETE FROM bars WHERE (symbol, interval) IN (('MSFT', '1d'))",
            "DELETE FROM bars WHERE (symbol, provider) IN (('BTC-USD', 'kraken'))",
            "DELETE FROM bars WHERE (symbol, interval, provider) IN (('ETH-USD', '1h', 'binance'))",
        ]
    );
    assert_eq!(plan.cleanups.len(), 2);
    assert_eq!(
        plan.cleanups[0],
        "DELETE FROM dividends WHERE symbol IN ('AAPL', 'MSFT') AND symbol NOT IN (SELECT DISTINCT symbol FROM bars);\n                         DELETE FROM instruments WHERE symbol IN ('AAPL', 'MSFT') AND symbol NOT IN (SELECT DISTINCT symbol FROM bars);"
    );
    assert!(plan.cleanups[1].starts_with(
        "DELETE FROM dividends WHERE (symbol, provider) IN (('BTC-USD', 'kraken'), ('ETH-USD', 'binance')) AND"
    ));
}

#[test]
fn deleting_a_single_symbol_skips_empty_groups() {
    let plan = delete_symbols_plan(&vec![("O'NEIL".to_owned(), None, Some(Provider::Yahoo))]).unwrap();
    assert_eq!(plan.bar_deletes, ["DELETE FROM bars WHERE (symbol, provider) IN (('O''NEIL', 'yahoo'))"]);
    assert_eq!(plan.cleanups.len(), 1);
}

#[test]
fn open_or_aborted_transactions_are_recognised() {
    assert!(is_stale_transaction("TransactionContext Error: cannot start a transaction within a transaction"));
    assert!(is_stale_transaction("Current transaction is aborted (please ROLLBACK)"));
    assert!(!is_stale_transaction("Catalog Error: Table with name bars does not exist!"));
}

#[test]
fn experiment_tags_split_on_commas() {
    assert!(experiment_tags("").is_empty());
    assert_eq!(experiment_tags("a,b"), ["a", "b"]);
    assert_eq!(experiment_tags("solo"), ["solo"]);
    assert_eq!(experiment_tags("a,,b"), ["a", "", "b"]);
}

#[test]
fn every_parameter_has_one_placeholder() {
    let symbols = vec!["A".to_owned(), "B".to_owned(), "C".to_owned()];
    let providers = vec![Provider::Yahoo];
    for q in [
        query_bars_sql(Some(&symbols), None, Some(&providers), Some(7)),
        query_bars_sql(None, Some(&vec![Interval::OneHour, Interval::OneDay]), None, None),
        query_dividends_sql(Some(&symbols), Some(&providers), None),
        query_instruments_sql(Some(&vec![InstrumentType::Forex]), Some(&providers), Some(&symbols), Some(1)),
    ] {
        assert_eq!(q.sql.matches('?').count(), q.params.len());
    }
}

fn failed(message: &str) -> TxEvent {
    TxEvent::Failed { message: message.to_owned() }
}

#[test]
fn transaction_commits_after_the_work_succeeds() {
    let (p, a) = tx_start();
    assert_eq!((p, a), (TxPhase::Beginning, TxAction::Begin));
    let (p, a) = tx_step(p, &TxEvent::Succeeded);
    assert_eq!(a, TxAction::RunWork);
    let (p, a) = tx_step(p, &TxEvent::Succeeded);
    assert_eq!(a, TxAction::Commit);
    let (p, a) = tx_step(p, &TxEvent::Succeeded);
    assert_eq!((p, a), (TxPhase::Finished, TxAction::Finish));
}

#[test]
fn stale_transaction_is_rolled_back_once_then_begun_again() {
    let (p, _) = tx_start();
    let (p, a) = tx_step(p, &failed("TransactionContext Error: cannot start a transaction within a transaction"));
    assert_eq!((p, a), (TxPhase::Retrying, TxAction::RollbackAndBegin));
    let (p2, a2) = tx_step(p, &failed("TransactionContext Error: cannot start a transaction within a transaction"));
    assert_eq!((p2, a2), (TxPhase::Finished, TxAction::Fail));
    let (_, a3) = tx_step(p, &TxEvent::Succeeded);
    assert_eq!(a3, TxAction::RunWork);
}

#[test]
fn other_begin_failures_are_returned() {
    let (p, _) = tx_start();
    assert_eq!(tx_step(p, &failed("IO Error: disk full")), (TxPhase::Finished, TxAction::Fail));
}

#[test]
fn failed_work_or_commit_is_rolled_back() {
    assert_eq!(tx_step(TxPhase::Working, &failed("boom")), (TxPhase::Finished, TxAction::RollbackAndFail));
    assert_eq!(tx_step(TxPhase::Committing, &failed("conflict")), (TxPhase::Finished, TxAction::RollbackAndFail));
}
