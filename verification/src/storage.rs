//! The SQL the storage layer sends to the database: filtered queries with
//! their positional parameters, bulk deletions, and the recognition of a
//! transaction left open by an earlier failure.

use vstd::prelude::*;
use vstd::string::StrSliceExecFns;
use crate::models::{interval_label, provider_name, Instrument, InstrumentType, Interval, Provider};
use crate::legs::first_occurrences;
use crate::text::{lemma_views_push, chars_of, digit_char, split_char, split_on_char, string_of, concat, concat3, contains_seq, contains_str, decimal, decimal_string, join, join_strings, owned, views};

verus! {

/// A statement and its positional parameters.
#[derive(Debug, Clone, PartialEq, Eq)]
pub struct SqlQuery {
    pub sql: String,
    pub params: Vec<String>,
}

/// `n` placeholders separated by commas.
pub open spec fn placeholder_list(n: nat) -> Seq<char> {
    join(Seq::new(n, |i: int| "?"@), ", "@)
}

/// The clause `col IN (?, …, ?)` with `n` placeholders.
pub open spec fn in_clause(col: Seq<char>, n: nat) -> Seq<char> {
    col + " IN ("@ + placeholder_list(n) + ")"@
}

/// The `WHERE` part of a statement: nothing without clauses, else the
/// clauses joined with `AND`.
pub open spec fn where_part(clauses: Seq<Seq<char>>) -> Seq<char> {
    if clauses.len() == 0 {
        Seq::empty()
    } else {
        " WHERE "@ + join(clauses, " AND "@)
    }
}

/// The `LIMIT` part of a statement.
pub open spec fn limit_part(limit: Option<usize>) -> Seq<char> {
    match limit {
        Some(n) => " LIMIT "@ + decimal(n as nat),
        None => Seq::empty(),
    }
}

/// The clause and parameters that filter column `col` by `values`: none when
/// no values are given or the list is empty.
pub open spec fn filter(col: Seq<char>, values: Option<Seq<Seq<char>>>) -> (Seq<Seq<char>>, Seq<Seq<char>>) {
    match values {
        Some(v) => if v.len() > 0 {
            (seq![in_clause(col, v.len())], v)
        } else {
            (seq![], seq![])
        },
        None => (seq![], seq![]),
    }
}

/// The characters of each string of an optional list.
pub open spec fn opt_views(v: Option<&Vec<String>>) -> Option<Seq<Seq<char>>> {
    match v {
        Some(v) => Some(views(v@)),
        None => None,
    }
}

/// The labels (`1m`, `1d`, …) of an optional list of intervals.
pub open spec fn opt_labels(v: Option<&Vec<Interval>>) -> Option<Seq<Seq<char>>> {
    match v {
        Some(v) => Some(v@.map_values(|iv: Interval| interval_label(iv))),
        None => None,
    }
}

/// The names of an optional list of providers.
pub open spec fn opt_names(v: Option<&Vec<Provider>>) -> Option<Seq<Seq<char>>> {
    match v {
        Some(v) => Some(v@.map_values(|p: Provider| provider_name(p))),
        None => None,
    }
}

/// The stored name of an instrument type.
pub open spec fn instrument_type_name(it: InstrumentType) -> Seq<char> {
    match it {
        InstrumentType::Stocks => "stocks"@,
        InstrumentType::Etf => "etf"@,
        InstrumentType::Forex => "forex"@,
        InstrumentType::Crypto => "crypto"@,
    }
}

/// The stored names of an optional list of instrument types.
pub open spec fn opt_type_names(v: Option<&Vec<InstrumentType>>) -> Option<Seq<Seq<char>>> {
    match v {
        Some(v) => Some(v@.map_values(|it: InstrumentType| instrument_type_name(it))),
        None => None,
    }
}

/// `n` placeholders separated by commas.
fn placeholders(n: usize) -> (r: String)
    ensures
        r@ == placeholder_list(n as nat),
{
    let mut marks: Vec<String> = Vec::new();
    let mut i: usize = 0;
    while i < n
        invariant
            i <= n,
            views(marks@) == Seq::new(i as nat, |k: int| "?"@),
        decreases n - i,
    {
        let ghost prev = marks@;
        marks.push(owned("?"));
        proof {
            lemma_views_push(prev, marks@.last());
        }
        assert(views(marks@) =~= Seq::new((i + 1) as nat, |k: int| "?"@));
        i = i + 1;
    }
    join_strings(&marks, ", ")
}

/// Add the filter on column `col` to the clauses and parameters.
fn add_filter(clauses: &mut Vec<String>, params: &mut Vec<String>, col: &str, values: Option<Vec<String>>)
    ensures
        views(final(clauses)@) == views(old(clauses)@) + filter(col@, opt_seq(values)).0,
        views(final(params)@) == views(old(params)@) + filter(col@, opt_seq(values)).1,
{
    match values {
        Some(v) => {
            if v.len() > 0 {
                let ph = placeholders(v.len());
                let clause = concat3(concat(col, " IN (").as_str(), ph.as_str(), ")");
                let ghost before = views(clauses@);
                let ghost prev = clauses@;
                clauses.push(clause);
                proof {
                    lemma_views_push(prev, clauses@.last());
                }
                assert(views(clauses@) =~= before + seq![in_clause(col@, v@.len())]);
                let ghost pbefore = views(params@);
                let mut i: usize = 0;
                while i < v.len()
                    invariant
                        i <= v.len(),
                        views(params@) == pbefore + views(v@).subrange(0, i as int),
                    decreases v.len() - i,
                {
                    let ghost prev = params@;
                    params.push(v[i].clone());
                    proof {
                        lemma_views_push(prev, params@.last());
                    }
                    assert(views(params@) =~= pbefore + views(v@).subrange(0, i + 1));
                    i = i + 1;
                }
                assert(views(v@).subrange(0, v.len() as int) =~= views(v@));
            } else {
                assert(views(clauses@) =~= views(clauses@) + Seq::<Seq<char>>::empty());
                assert(views(params@) =~= views(params@) + Seq::<Seq<char>>::empty());
            }
        },
        None => {
            assert(views(clauses@) =~= views(clauses@) + Seq::<Seq<char>>::empty());
            assert(views(params@) =~= views(params@) + Seq::<Seq<char>>::empty());
        },
    }
}

/// The characters of each string of an optional owned list.
pub open spec fn opt_seq(v: Option<Vec<String>>) -> Option<Seq<Seq<char>>> {
    match v {
        Some(v) => Some(views(v@)),
        None => None,
    }
}

fn copy_strings(v: Option<&Vec<String>>) -> (r: Option<Vec<String>>)
    ensures
        opt_seq(r) == opt_views(v),
{
    match v {
        Some(v) => {
            let mut out: Vec<String> = Vec::new();
            let mut i: usize = 0;
            while i < v.len()
                invariant
                    i <= v.len(),
                    views(out@) == views(v@).subrange(0, i as int),
                decreases v.len() - i,
            {
                let ghost prev = out@;
                out.push(v[i].clone());
                proof {
                    lemma_views_push(prev, out@.last());
                }
                assert(views(out@) =~= views(v@).subrange(0, i + 1));
                i = i + 1;
            }
            assert(views(v@).subrange(0, v.len() as int) =~= views(v@));
            Some(out)
        },
        None => None,
    }
}

fn interval_labels(v: Option<&Vec<Interval>>) -> (r: Option<Vec<String>>)
    ensures
        opt_seq(r) == opt_labels(v),
{
    match v {
        Some(v) => {
            let mut out: Vec<String> = Vec::new();
            let mut i: usize = 0;
            while i < v.len()
                invariant
                    i <= v.len(),
                    views(out@) == v@.subrange(0, i as int).map_values(|iv: Interval| interval_label(iv)),
                decreases v.len() - i,
            {
                let ghost prev = out@;
                out.push(v[i].label());
                proof {
                    lemma_views_push(prev, out@.last());
                }
                assert(views(out@) =~= v@.subrange(0, i + 1).map_values(|iv: Interval| interval_label(iv)));
                i = i + 1;
            }
            assert(v@.subrange(0, v.len() as int) =~= v@);
            Some(out)
        },
        None => None,
    }
}

fn provider_names(v: Option<&Vec<Provider>>) -> (r: Option<Vec<String>>)
    ensures
        opt_seq(r) == opt_names(v),
{
    match v {
        Some(v) => {
            let mut out: Vec<String> = Vec::new();
            let mut i: usize = 0;
            while i < v.len()
                invariant
                    i <= v.len(),
                    views(out@) == v@.subrange(0, i as int).map_values(|p: Provider| provider_name(p)),
                decreases v.len() - i,
            {
                let ghost prev = out@;
                out.push(v[i].name());
                proof {
                    lemma_views_push(prev, out@.last());
                }
                assert(views(out@) =~= v@.subrange(0, i + 1).map_values(|p: Provider| provider_name(p)));
                i = i + 1;
            }
            assert(v@.subrange(0, v.len() as int) =~= v@);
            Some(out)
        },
        None => None,
    }
}

/// The stored name of an instrument type.
pub fn instrument_type_label(it: InstrumentType) -> (r: String)
    ensures
        r@ == instrument_type_name(it),
{
    match it {
        InstrumentType::Stocks => owned("stocks"),
        InstrumentType::Etf => owned("etf"),
        InstrumentType::Forex => owned("forex"),
        InstrumentType::Crypto => owned("crypto"),
    }
}

fn type_names(v: Option<&Vec<InstrumentType>>) -> (r: Option<Vec<String>>)
    ensures
        opt_seq(r) == opt_type_names(v),
{
    match v {
        Some(v) => {
            let mut out: Vec<String> = Vec::new();
            let mut i: usize = 0;
            while i < v.len()
                invariant
                    i <= v.len(),
                    views(out@) == v@.subrange(0, i as int).map_values(|it: InstrumentType| instrument_type_name(it)),
                decreases v.len() - i,
            {
                let ghost prev = out@;
                out.push(instrument_type_label(v[i]));
                proof {
                    lemma_views_push(prev, out@.last());
                }
                assert(views(out@) =~= v@.subrange(0, i + 1).map_values(|it: InstrumentType| instrument_type_name(it)));
                i = i + 1;
            }
            assert(v@.subrange(0, v.len() as int) =~= v@);
            Some(out)
        },
        None => None,
    }
}

/// Append the `WHERE`, `ORDER BY` and `LIMIT` parts to a statement.
fn finish_query(base: &str, clauses: &Vec<String>, order: &str, limit: Option<usize>) -> (r: String)
    ensures
        r@ == base@ + where_part(views(clauses@)) + order@ + limit_part(limit),
{
    let mut sql = owned(base);
    if clauses.len() > 0 {
        let joined = join_strings(clauses, " AND ");
        sql = concat3(sql.as_str(), " WHERE ", joined.as_str());
    }
    sql = concat(sql.as_str(), order);
    match limit {
        Some(n) => {
            let digits = decimal_string(n as u64);
            sql = concat3(sql.as_str(), " LIMIT ", digits.as_str());
        },
        None => {},
    }
    sql
}

/// The selection of stored bars.
pub open spec fn bars_select() -> Seq<char> {
    "SELECT symbol, interval, provider,\n                    open_ts, close_ts, open_ts_exchange,\n                    open, high, low, close, adj_close, volume, n_trades\n             FROM bars"@
}

/// The filters of a bar query, in order: symbols, intervals, providers.
pub open spec fn bars_filters(
    symbols: Option<Seq<Seq<char>>>,
    intervals: Option<Seq<Seq<char>>>,
    providers: Option<Seq<Seq<char>>>,
) -> (Seq<Seq<char>>, Seq<Seq<char>>) {
    let a = filter("symbol"@, symbols);
    let b = filter("interval"@, intervals);
    let c = filter("provider"@, providers);
    (a.0 + b.0 + c.0, a.1 + b.1 + c.1)
}

/// The query for stored bars, filtered by symbol, interval and provider (an
/// absent or empty list does not filter), ordered by symbol, interval and
/// open time, with an optional row limit.
pub fn query_bars_sql(
    symbols: Option<&Vec<String>>,
    intervals: Option<&Vec<Interval>>,
    providers: Option<&Vec<Provider>>,
    limit: Option<usize>,
) -> (r: SqlQuery)
    ensures
        r.sql@ == bars_select() + where_part(bars_filters(opt_views(symbols), opt_labels(intervals), opt_names(providers)).0)
            + " ORDER BY symbol, interval, open_ts"@ + limit_part(limit),
        views(r.params@) == bars_filters(opt_views(symbols), opt_labels(intervals), opt_names(providers)).1,
{
    let mut clauses: Vec<String> = Vec::new();
    let mut params: Vec<String> = Vec::new();
    add_filter(&mut clauses, &mut params, "symbol", copy_strings(symbols));
    add_filter(&mut clauses, &mut params, "interval", interval_labels(intervals));
    add_filter(&mut clauses, &mut params, "provider", provider_names(providers));
    assert(views(clauses@) =~= bars_filters(opt_views(symbols), opt_labels(intervals), opt_names(providers)).0);
    assert(views(params@) =~= bars_filters(opt_views(symbols), opt_labels(intervals), opt_names(providers)).1);
    let sql = finish_query(
        "SELECT symbol, interval, provider,\n                    open_ts, close_ts, open_ts_exchange,\n                    open, high, low, close, adj_close, volume, n_trades\n             FROM bars",
        &clauses,
        " ORDER BY symbol, interval, open_ts",
        limit,
    );
    SqlQuery { sql, params }
}

/// The selection of stored dividends.
pub open spec fn dividends_select() -> Seq<char> {
    "SELECT symbol, provider, ex_date, amount\n             FROM dividends"@
}

/// The filters of a dividend query, in order: symbols, providers.
pub open spec fn dividends_filters(symbols: Option<Seq<Seq<char>>>, providers: Option<Seq<Seq<char>>>) -> (
    Seq<Seq<char>>,
    Seq<Seq<char>>,
) {
    let a = filter("symbol"@, symbols);
    let c = filter("provider"@, providers);
    (a.0 + c.0, a.1 + c.1)
}

/// The query for stored dividends, filtered by symbol and provider, ordered by
/// symbol and ex-date, with an optional row limit.
pub fn query_dividends_sql(symbols: Option<&Vec<String>>, providers: Option<&Vec<Provider>>, limit: Option<usize>) -> (r: SqlQuery)
    ensures
        r.sql@ == dividends_select() + where_part(dividends_filters(opt_views(symbols), opt_names(providers)).0)
            + " ORDER BY symbol, ex_date"@ + limit_part(limit),
        views(r.params@) == dividends_filters(opt_views(symbols), opt_names(providers)).1,
{
    let mut clauses: Vec<String> = Vec::new();
    let mut params: Vec<String> = Vec::new();
    add_filter(&mut clauses, &mut params, "symbol", copy_strings(symbols));
    add_filter(&mut clauses, &mut params, "provider", provider_names(providers));
    assert(views(clauses@) =~= dividends_filters(opt_views(symbols), opt_names(providers)).0);
    assert(views(params@) =~= dividends_filters(opt_views(symbols), opt_names(providers)).1);
    let sql = finish_query(
        "SELECT symbol, provider, ex_date, amount\n             FROM dividends",
        &clauses,
        " ORDER BY symbol, ex_date",
        limit,
    );
    SqlQuery { sql, params }
}

/// The selection of stored instruments.
pub open spec fn instruments_select() -> Seq<char> {
    "SELECT symbol, provider, instrument_type, name, base, quote, exchange\n             FROM instruments"@
}

/// The filters of an instrument query, in order: types, providers, exchanges.
pub open spec fn instruments_filters(
    types: Option<Seq<Seq<char>>>,
    providers: Option<Seq<Seq<char>>>,
    exchanges: Option<Seq<Seq<char>>>,
) -> (Seq<Seq<char>>, Seq<Seq<char>>) {
    let a = filter("instrument_type"@, types);
    let b = filter("provider"@, providers);
    let c = filter("exchange"@, exchanges);
    (a.0 + b.0 + c.0, a.1 + b.1 + c.1)
}

/// The query for stored instruments, filtered by type, provider and exchange,
/// ordered by symbol, with an optional row limit.
pub fn query_instruments_sql(
    types: Option<&Vec<InstrumentType>>,
    providers: Option<&Vec<Provider>>,
    exchanges: Option<&Vec<String>>,
    limit: Option<usize>,
) -> (r: SqlQuery)
    ensures
        r.sql@ == instruments_select() + where_part(
            instruments_filters(opt_type_names(types), opt_names(providers), opt_views(exchanges)).0,
        ) + " ORDER BY symbol"@ + limit_part(limit),
        views(r.params@) == instruments_filters(opt_type_names(types), opt_names(providers), opt_views(exchanges)).1,
{
    let mut clauses: Vec<String> = Vec::new();
    let mut params: Vec<String> = Vec::new();
    add_filter(&mut clauses, &mut params, "instrument_type", type_names(types));
    add_filter(&mut clauses, &mut params, "provider", provider_names(providers));
    add_filter(&mut clauses, &mut params, "exchange", copy_strings(exchanges));
    assert(views(clauses@) =~= instruments_filters(opt_type_names(types), opt_names(providers), opt_views(exchanges)).0);
    assert(views(params@) =~= instruments_filters(opt_type_names(types), opt_names(providers), opt_views(exchanges)).1);
    let sql = finish_query(
        "SELECT symbol, provider, instrument_type, name, base, quote, exchange\n             FROM instruments",
        &clauses,
        " ORDER BY symbol",
        limit,
    );
    SqlQuery { sql, params }
}

/// Whether a failure to begin a transaction comes from a transaction that an
/// earlier failure left open or aborted on the connection, which a rollback
/// clears.
pub open spec fn stale_transaction(message: Seq<char>) -> bool {
    contains_seq(message, "cannot start a transaction within a transaction"@) || contains_seq(
        message,
        "Current transaction is aborted"@,
    )
}

/// Whether a failure to begin a transaction can be cleared by rolling back and
/// beginning again.
pub fn is_stale_transaction(message: &str) -> (r: bool)
    ensures
        r == stale_transaction(message@),
{
    contains_str(message, "cannot start a transaction within a transaction") || contains_str(
        message,
        "Current transaction is aborted",
    )
}

// ───────────────────────────── transactions ─────────────────────────────

/// Where a write transaction stands.
#[derive(Debug, Clone, Copy, PartialEq, Eq)]
pub enum TxPhase {
    /// `BEGIN TRANSACTION` was issued.
    Beginning,
    /// A stale transaction was rolled back and `BEGIN TRANSACTION` issued again.
    Retrying,
    /// The work runs inside the transaction.
    Working,
    /// `COMMIT` was issued.
    Committing,
    /// The transaction is over.
    Finished,
}

/// How the last statement or the work went.
#[derive(Debug, Clone, PartialEq, Eq)]
pub enum TxEvent {
    Succeeded,
    /// It failed, with the error's text.
    Failed { message: String },
}

/// What the connection does next.
#[derive(Debug, Clone, Copy, PartialEq, Eq)]
pub enum TxAction {
    /// Issue `BEGIN TRANSACTION` and report how it went.
    Begin,
    /// Issue `ROLLBACK`, ignoring how it goes, then `BEGIN TRANSACTION`, and report how that went.
    RollbackAndBegin,
    /// Run the work and report how it went.
    RunWork,
    /// Issue `COMMIT` and report how it went.
    Commit,
    /// Issue `ROLLBACK`, ignoring how it goes, and fail with the error last reported.
    RollbackAndFail,
    /// Fail with the error last reported.
    Fail,
    /// Return the work's result.
    Finish,
}

/// The phase and action after an event (a transaction that finished takes no events).
pub open spec fn tx_next(phase: TxPhase, event: TxEvent) -> (TxPhase, TxAction) {
    match (phase, event) {
        (TxPhase::Beginning, TxEvent::Succeeded) => (TxPhase::Working, TxAction::RunWork),
        (TxPhase::Beginning, TxEvent::Failed { message }) => if stale_transaction(message@) {
            (TxPhase::Retrying, TxAction::RollbackAndBegin)
        } else {
            (TxPhase::Finished, TxAction::Fail)
        },
        (TxPhase::Retrying, TxEvent::Succeeded) => (TxPhase::Working, TxAction::RunWork),
        (TxPhase::Retrying, TxEvent::Failed { .. }) => (TxPhase::Finished, TxAction::Fail),
        (TxPhase::Working, TxEvent::Succeeded) => (TxPhase::Committing, TxAction::Commit),
        (TxPhase::Working, TxEvent::Failed { .. }) => (TxPhase::Finished, TxAction::RollbackAndFail),
        (TxPhase::Committing, TxEvent::Succeeded) => (TxPhase::Finished, TxAction::Finish),
        (TxPhase::Committing, TxEvent::Failed { .. }) => (TxPhase::Finished, TxAction::RollbackAndFail),
        (TxPhase::Finished, _) => (TxPhase::Finished, TxAction::Fail),
    }
}

/// A transaction starts by issuing `BEGIN TRANSACTION`.
pub fn tx_start() -> (r: (TxPhase, TxAction))
    ensures
        r == (TxPhase::Beginning, TxAction::Begin),
{
    (TxPhase::Beginning, TxAction::Begin)
}

/// One step of a write transaction: a failure to begin that an earlier failure
/// left behind is cleared by one rollback and a second begin; work that fails,
/// or whose commit fails, is rolled back; the work's result is returned only
/// once the commit went through.
pub fn tx_step(phase: TxPhase, event: &TxEvent) -> (r: (TxPhase, TxAction))
    requires
        phase != TxPhase::Finished,
    ensures
        r == tx_next(phase, *event),
{
    match (phase, event) {
        (TxPhase::Beginning, TxEvent::Succeeded) => (TxPhase::Working, TxAction::RunWork),
        (TxPhase::Beginning, TxEvent::Failed { message }) => {
            if is_stale_transaction(message.as_str()) {
                (TxPhase::Retrying, TxAction::RollbackAndBegin)
            } else {
                (TxPhase::Finished, TxAction::Fail)
            }
        },
        (TxPhase::Retrying, TxEvent::Succeeded) => (TxPhase::Working, TxAction::RunWork),
        (TxPhase::Retrying, TxEvent::Failed { .. }) => (TxPhase::Finished, TxAction::Fail),
        (TxPhase::Working, TxEvent::Succeeded) => (TxPhase::Committing, TxAction::Commit),
        (TxPhase::Working, TxEvent::Failed { .. }) => (TxPhase::Finished, TxAction::RollbackAndFail),
        (TxPhase::Committing, TxEvent::Succeeded) => (TxPhase::Finished, TxAction::Finish),
        (TxPhase::Committing, TxEvent::Failed { .. }) => (TxPhase::Finished, TxAction::RollbackAndFail),
        (TxPhase::Finished, _) => (TxPhase::Finished, TxAction::Fail),
    }
}

/// The phase and last action after a run of events from the start.
pub open spec fn tx_run(events: Seq<TxEvent>) -> (TxPhase, TxAction)
    decreases events.len(),
{
    if events.len() == 0 {
        (TxPhase::Beginning, TxAction::Begin)
    } else {
        let prev = tx_run(events.drop_last());
        if prev.0 == TxPhase::Finished {
            prev
        } else {
            tx_next(prev.0, events.last())
        }
    }
}

/// How far a phase is along: every event moves an unfinished transaction forward.
pub open spec fn tx_rank(phase: TxPhase) -> nat {
    match phase {
        TxPhase::Beginning => 0,
        TxPhase::Retrying => 1,
        TxPhase::Working => 2,
        TxPhase::Committing => 3,
        TxPhase::Finished => 4,
    }
}

/// The action that leads into each phase.
pub open spec fn tx_consistent(r: (TxPhase, TxAction)) -> bool {
    match r.0 {
        TxPhase::Beginning => r.1 == TxAction::Begin,
        TxPhase::Retrying => r.1 == TxAction::RollbackAndBegin,
        TxPhase::Working => r.1 == TxAction::RunWork,
        TxPhase::Committing => r.1 == TxAction::Commit,
        TxPhase::Finished => r.1 == TxAction::Fail || r.1 == TxAction::RollbackAndFail || r.1 == TxAction::Finish,
    }
}

/// Every run leaves phase and action consistent, and after `n` events the
/// transaction is at least `n` phases along (or finished).
proof fn lemma_tx_run(events: Seq<TxEvent>)
    ensures
        tx_consistent(tx_run(events)),
        tx_rank(tx_run(events).0) >= if events.len() < 4 { events.len() } else { 4 },
        events.len() > 0 ==> tx_run(events).0 != TxPhase::Beginning,
    decreases events.len(),
{
    if events.len() > 0 {
        lemma_tx_run(events.drop_last());
    }
}

/// A transaction is over after at most four events: begin, one retry, the work
/// and the commit.
pub proof fn law_transaction_finishes(events: Seq<TxEvent>)
    requires
        events.len() >= 4,
    ensures
        tx_run(events).0 == TxPhase::Finished,
{
    lemma_tx_run(events);
}

/// The work's result is returned only right after the commit succeeded, and a
/// commit or work that fails is rolled back.
pub proof fn law_result_only_after_commit(events: Seq<TxEvent>)
    requires
        events.len() > 0,
        tx_run(events.drop_last()).0 != TxPhase::Finished,
    ensures
        tx_run(events).1 == TxAction::Finish <==> tx_run(events.drop_last()).1 == TxAction::Commit
            && events.last() == TxEvent::Succeeded,
        tx_run(events.drop_last()).1 == TxAction::Commit && events.last() is Failed
            ==> tx_run(events).1 == TxAction::RollbackAndFail,
        tx_run(events.drop_last()).1 == TxAction::RunWork && events.last() is Failed
            ==> tx_run(events).1 == TxAction::RollbackAndFail,
{
    lemma_tx_run(events.drop_last());
}

/// A begin is retried at most once: only as the answer to the first event, a
/// failure that reports a stale transaction.
pub proof fn law_begin_retried_once(events: Seq<TxEvent>)
    ensures
        tx_run(events).1 == TxAction::RollbackAndBegin ==> (events.len() == 1 && (events[0] matches TxEvent::Failed {
            message,
        } && stale_transaction(message@))),
{
    lemma_tx_run(events);
    if events.len() > 1 {
        lemma_tx_run(events.drop_last());
    } else if events.len() == 1 {
        assert(events.drop_last() =~= Seq::<TxEvent>::empty());
    }
}

/// A string as a quoted SQL literal body: each single quote doubled.
pub open spec fn sql_escaped(s: Seq<char>) -> Seq<char>
    decreases s.len(),
{
    if s.len() == 0 {
        seq![]
    } else {
        sql_escaped(s.drop_last()) + if s.last() == '\'' {
            seq!['\'', '\'']
        } else {
            seq![s.last()]
        }
    }
}

/// Double each single quote of a string, for use inside a quoted SQL literal.
pub fn escape_quotes(s: &str) -> (r: String)
    ensures
        r@ == sql_escaped(s@),
{
    let cs = chars_of(s);
    let mut out: Vec<char> = Vec::new();
    let mut i: usize = 0;
    while i < cs.len()
        invariant
            i <= cs.len(),
            cs@ == s@,
            out@ == sql_escaped(s@.subrange(0, i as int)),
        decreases cs.len() - i,
    {
        assert(s@.subrange(0, i + 1).drop_last() =~= s@.subrange(0, i as int));
        if cs[i] == '\'' {
            out.push('\'');
            out.push('\'');
        } else {
            out.push(cs[i]);
        }
        assert(out@ =~= sql_escaped(s@.subrange(0, i + 1)));
        i = i + 1;
    }
    assert(s@.subrange(0, cs.len() as int) =~= s@);
    string_of(&out)
}

/// The key of an instrument row: `('symbol', 'provider')`.
pub open spec fn instrument_key(i: Instrument) -> Seq<char> {
    "('"@ + sql_escaped(i.symbol@) + "', '"@ + provider_name(i.provider) + "')"@
}

/// The statement removing the stored rows of the instruments about to be
/// written, or none when there are no instruments.
pub fn instrument_delete_sql(instruments: &Vec<Instrument>) -> (r: Option<String>)
    ensures
        instruments@.len() == 0 ==> r is None,
        instruments@.len() > 0 ==> r is Some && r->Some_0@ == "DELETE FROM instruments WHERE (symbol, provider) IN ("@ + join(
            instruments@.map_values(|i: Instrument| instrument_key(i)),
            ", "@,
        ) + ")"@,
{
    if instruments.len() == 0 {
        return None;
    }
    let mut pairs: Vec<String> = Vec::new();
    let mut i: usize = 0;
    while i < instruments.len()
        invariant
            i <= instruments.len(),
            views(pairs@) == instruments@.subrange(0, i as int).map_values(|x: Instrument| instrument_key(x)),
        decreases instruments.len() - i,
    {
        let sym = escape_quotes(instruments[i].symbol.as_str());
        let prov = instruments[i].provider.name();
        let key = concat3(concat3("('", sym.as_str(), "', '").as_str(), prov.as_str(), "')");
        let ghost prev = pairs@;
        pairs.push(key);
        proof {
            lemma_views_push(prev, pairs@.last());
        }
        assert(views(pairs@) =~= instruments@.subrange(0, i + 1).map_values(|x: Instrument| instrument_key(x)));
        i = i + 1;
    }
    assert(instruments@.subrange(0, instruments.len() as int) =~= instruments@);
    let list = join_strings(&pairs, ", ");
    Some(concat3("DELETE FROM instruments WHERE (symbol, provider) IN (", list.as_str(), ")"))
}

/// A series of bars to delete: a symbol, optionally narrowed to an interval
/// and a provider.
pub type SeriesKey = (String, Option<Interval>, Option<Provider>);

/// The group of a series by the filters it carries (symbol only; with
/// interval; with provider; with both), and its entry in that group's list.
pub open spec fn series_entry(k: SeriesKey) -> (int, Seq<char>) {
    let s = sql_escaped(k.0@);
    match (k.1, k.2) {
        (None, None) => (0, "'"@ + s + "'"@),
        (Some(iv), None) => (1, "('"@ + s + "', '"@ + interval_label(iv) + "')"@),
        (None, Some(p)) => (2, "('"@ + s + "', '"@ + provider_name(p) + "')"@),
        (Some(iv), Some(p)) => (3, "('"@ + s + "', '"@ + interval_label(iv) + "', '"@ + provider_name(p) + "')"@),
    }
}

/// The entries of group `g`, in order.
pub open spec fn group_entries(series: Seq<SeriesKey>, g: int) -> Seq<Seq<char>>
    decreases series.len(),
{
    if series.len() == 0 {
        seq![]
    } else {
        let p = group_entries(series.drop_last(), g);
        if series_entry(series.last()).0 == g { p.push(series_entry(series.last()).1) } else { p }
    }
}

/// The columns matched by each group.
pub open spec fn group_column(g: int) -> Seq<char> {
    if g == 0 {
        "symbol"@
    } else if g == 1 {
        "(symbol, interval)"@
    } else if g == 2 {
        "(symbol, provider)"@
    } else {
        "(symbol, interval, provider)"@
    }
}

/// The bar deletion of one group, if it has entries.
pub open spec fn bar_delete(series: Seq<SeriesKey>, g: int) -> Seq<Seq<char>> {
    let vals = group_entries(series, g);
    if vals.len() == 0 {
        seq![]
    } else {
        seq!["DELETE FROM bars WHERE "@ + group_column(g) + " IN ("@ + join(vals, ", "@) + ")"@]
    }
}

/// The group of a series for removing orphaned dividends and instruments
/// (by symbol, or by symbol and provider), and its entry.
pub open spec fn orphan_entry(k: SeriesKey) -> (int, Seq<char>) {
    let s = sql_escaped(k.0@);
    match k.2 {
        None => (0, "'"@ + s + "'"@),
        Some(p) => (1, "('"@ + s + "', '"@ + provider_name(p) + "')"@),
    }
}

/// The entries of orphan group `g`, in order, with repetitions.
pub open spec fn orphan_entries(series: Seq<SeriesKey>, g: int) -> Seq<Seq<char>>
    decreases series.len(),
{
    if series.len() == 0 {
        seq![]
    } else {
        let p = orphan_entries(series.drop_last(), g);
        if orphan_entry(series.last()).0 == g { p.push(orphan_entry(series.last()).1) } else { p }
    }
}

/// The removal of orphaned dividends and instruments for one orphan group, if
/// it has entries; each entry is listed once.
pub open spec fn orphan_delete(series: Seq<SeriesKey>, g: int) -> Seq<Seq<char>> {
    let vals = first_occurrences(orphan_entries(series, g));
    let col: Seq<char> = if g == 0 { "symbol"@ } else { "(symbol, provider)"@ };
    let excl: Seq<char> = if g == 0 {
        "symbol NOT IN (SELECT DISTINCT symbol FROM bars)"@
    } else {
        "(symbol, provider) NOT IN (SELECT DISTINCT symbol, provider FROM bars)"@
    };
    let list = join(vals, ", "@);
    if vals.len() == 0 {
        seq![]
    } else {
        seq![
            "DELETE FROM dividends WHERE "@ + col + " IN ("@ + list + ") AND "@ + excl
                + ";\n                         DELETE FROM instruments WHERE "@ + col + " IN ("@ + list + ") AND "@ + excl
                + ";"@,
        ]
    }
}

/// The statements removing a set of series: the bar deletions (whose affected
/// row counts add up to the number of removed bars) and the cleanup of
/// dividends and instruments that no longer have bars.
#[derive(Debug, Clone, PartialEq, Eq)]
pub struct DeletePlan {
    pub bar_deletes: Vec<String>,
    pub cleanups: Vec<String>,
}

/// Push `s` unless an equal string is already there.
fn push_new(v: &mut Vec<String>, s: String)
    ensures
        views(final(v)@) == if views(old(v)@).contains(s@) { views(old(v)@) } else { views(old(v)@).push(s@) },
{
    let mut i: usize = 0;
    while i < v.len()
        invariant
            i <= v.len(),
            forall|k: int| 0 <= k < i ==> views(v@)[k] != s@,
        decreases v.len() - i,
    {
        if crate::text::str_eq(v[i].as_str(), s.as_str()) {
            assert(views(v@)[i as int] == s@);
            return;
        }
        i = i + 1;
    }
    assert(!views(v@).contains(s@));
    let ghost prev = v@;
    v.push(s);
    proof {
        lemma_views_push(prev, v@.last());
    }
}

fn group_entry_exec(k: &SeriesKey) -> (r: (usize, String))
    ensures
        r.0 as int == series_entry(*k).0,
        r.1@ == series_entry(*k).1,
{
    let s = escape_quotes(k.0.as_str());
    match (k.1, k.2) {
        (None, None) => (0, concat3("'", s.as_str(), "'")),
        (Some(iv), None) => {
            let l = iv.label();
            (1, concat3(concat3("('", s.as_str(), "', '").as_str(), l.as_str(), "')"))
        },
        (None, Some(p)) => {
            let n = p.name();
            (2, concat3(concat3("('", s.as_str(), "', '").as_str(), n.as_str(), "')"))
        },
        (Some(iv), Some(p)) => {
            let l = iv.label();
            let n = p.name();
            let head = concat3(concat3("('", s.as_str(), "', '").as_str(), l.as_str(), "', '");
            (3, concat3(head.as_str(), n.as_str(), "')"))
        },
    }
}

fn orphan_entry_exec(k: &SeriesKey) -> (r: (usize, String))
    ensures
        r.0 as int == orphan_entry(*k).0,
        r.1@ == orphan_entry(*k).1,
{
    let s = escape_quotes(k.0.as_str());
    match k.2 {
        None => (0, concat3("'", s.as_str(), "'")),
        Some(p) => {
            let n = p.name();
            (1, concat3(concat3("('", s.as_str(), "', '").as_str(), n.as_str(), "')"))
        },
    }
}

fn push_bar_delete(out: &mut Vec<String>, col: &str, vals: &Vec<String>)
    ensures
        vals@.len() == 0 ==> views(final(out)@) == views(old(out)@),
        vals@.len() > 0 ==> views(final(out)@) == views(old(out)@).push(
            "DELETE FROM bars WHERE "@ + col@ + " IN ("@ + join(views(vals@), ", "@) + ")"@,
        ),
{
    if vals.len() > 0 {
        let list = join_strings(vals, ", ");
        let stmt = concat3(concat3("DELETE FROM bars WHERE ", col, " IN (").as_str(), list.as_str(), ")");
        let ghost prev = out@;
        out.push(stmt);
        proof {
            lemma_views_push(prev, out@.last());
        }
    }
}

fn push_cleanup(out: &mut Vec<String>, col: &str, excl: &str, vals: &Vec<String>)
    ensures
        vals@.len() == 0 ==> views(final(out)@) == views(old(out)@),
        vals@.len() > 0 ==> views(final(out)@) == views(old(out)@).push(
            "DELETE FROM dividends WHERE "@ + col@ + " IN ("@ + join(views(vals@), ", "@) + ") AND "@ + excl@
                + ";\n                         DELETE FROM instruments WHERE "@ + col@ + " IN ("@ + join(views(vals@), ", "@)
                + ") AND "@ + excl@ + ";"@,
        ),
{
    if vals.len() > 0 {
        let list = join_strings(vals, ", ");
        let first = concat3(concat3("DELETE FROM dividends WHERE ", col, " IN (").as_str(), list.as_str(), ") AND ");
        let second = concat3(concat3(";\n                         DELETE FROM instruments WHERE ", col, " IN (").as_str(), list.as_str(), ") AND ");
        let stmt = concat3(concat(first.as_str(), excl).as_str(), second.as_str(), concat(excl, ";").as_str());
        assert(stmt@ =~= "DELETE FROM dividends WHERE "@ + col@ + " IN ("@ + join(views(vals@), ", "@) + ") AND "@ + excl@
            + ";\n                         DELETE FROM instruments WHERE "@ + col@ + " IN ("@ + join(views(vals@), ", "@)
            + ") AND "@ + excl@ + ";"@);
        let ghost prev = out@;
        out.push(stmt);
        proof {
            lemma_views_push(prev, out@.last());
        }
    }
}

/// The statements removing a set of series, or none when the set is empty.
/// Bars are removed group by group (symbol only, with interval, with provider,
/// with both); then dividends and instruments of the series' symbols (or
/// symbol and provider) that no longer have bars.
pub fn delete_symbols_plan(series: &Vec<SeriesKey>) -> (r: Option<DeletePlan>)
    ensures
        series@.len() == 0 ==> r is None,
        series@.len() > 0 ==> r is Some && views(r->Some_0.bar_deletes@) == bar_delete(series@, 0) + bar_delete(series@, 1)
            + bar_delete(series@, 2) + bar_delete(series@, 3) && views(r->Some_0.cleanups@) == orphan_delete(series@, 0)
            + orphan_delete(series@, 1),
{
    if series.len() == 0 {
        return None;
    }
    let mut g0: Vec<String> = Vec::new();
    let mut g1: Vec<String> = Vec::new();
    let mut g2: Vec<String> = Vec::new();
    let mut g3: Vec<String> = Vec::new();
    let mut o0: Vec<String> = Vec::new();
    let mut o1: Vec<String> = Vec::new();
    let mut i: usize = 0;
    while i < series.len()
        invariant
            i <= series.len(),
            views(g0@) == group_entries(series@.subrange(0, i as int), 0),
            views(g1@) == group_entries(series@.subrange(0, i as int), 1),
            views(g2@) == group_entries(series@.subrange(0, i as int), 2),
            views(g3@) == group_entries(series@.subrange(0, i as int), 3),
            views(o0@) == first_occurrences(orphan_entries(series@.subrange(0, i as int), 0)),
            views(o1@) == first_occurrences(orphan_entries(series@.subrange(0, i as int), 1)),
        decreases series.len() - i,
    {
        let ghost pre = series@.subrange(0, i as int);
        let ghost nxt = series@.subrange(0, i + 1);
        assert(nxt.drop_last() =~= pre);
        assert(nxt.last() == series@[i as int]);
        let (g, e) = group_entry_exec(&series[i]);
        let ghost ev = e@;
        if g == 0 {
            let ghost prev = g0@;
            g0.push(e);
            proof { lemma_views_push(prev, g0@.last()); }
        } else if g == 1 {
            let ghost prev = g1@;
            g1.push(e);
            proof { lemma_views_push(prev, g1@.last()); }
        } else if g == 2 {
            let ghost prev = g2@;
            g2.push(e);
            proof { lemma_views_push(prev, g2@.last()); }
        } else {
            let ghost prev = g3@;
            g3.push(e);
            proof { lemma_views_push(prev, g3@.last()); }
        }
        let (og, oe) = orphan_entry_exec(&series[i]);
        let ghost oev = oe@;
        if og == 0 {
            push_new(&mut o0, oe);
            proof {
                let t = orphan_entries(nxt, 0);
                assert(t == orphan_entries(pre, 0).push(oev));
                assert(t.drop_last() =~= orphan_entries(pre, 0));
                assert(orphan_entries(nxt, 1) == orphan_entries(pre, 1));
            }
        } else {
            push_new(&mut o1, oe);
            proof {
                let t = orphan_entries(nxt, 1);
                assert(t == orphan_entries(pre, 1).push(oev));
                assert(t.drop_last() =~= orphan_entries(pre, 1));
                assert(orphan_entries(nxt, 0) == orphan_entries(pre, 0));
            }
        }
        assert(views(g0@) =~= group_entries(nxt, 0));
        assert(views(g1@) =~= group_entries(nxt, 1));
        assert(views(g2@) =~= group_entries(nxt, 2));
        assert(views(g3@) =~= group_entries(nxt, 3));
        assert(views(o0@) =~= first_occurrences(orphan_entries(nxt, 0)));
        assert(views(o1@) =~= first_occurrences(orphan_entries(nxt, 1)));
        i = i + 1;
    }
    assert(series@.subrange(0, series.len() as int) =~= series@);
    let mut bar_deletes: Vec<String> = Vec::new();
    push_bar_delete(&mut bar_deletes, "symbol", &g0);
    push_bar_delete(&mut bar_deletes, "(symbol, interval)", &g1);
    push_bar_delete(&mut bar_deletes, "(symbol, provider)", &g2);
    push_bar_delete(&mut bar_deletes, "(symbol, interval, provider)", &g3);
    let mut cleanups: Vec<String> = Vec::new();
    push_cleanup(&mut cleanups, "symbol", "symbol NOT IN (SELECT DISTINCT symbol FROM bars)", &o0);
    push_cleanup(
        &mut cleanups,
        "(symbol, provider)",
        "(symbol, provider) NOT IN (SELECT DISTINCT symbol, provider FROM bars)",
        &o1,
    );
    assert(views(bar_deletes@) =~= bar_delete(series@, 0) + bar_delete(series@, 1) + bar_delete(series@, 2) + bar_delete(series@, 3));
    assert(views(cleanups@) =~= orphan_delete(series@, 0) + orphan_delete(series@, 1));
    Some(DeletePlan { bar_deletes, cleanups })
}

/// Unicode lower-casing of a string (`str::to_lowercase`).
pub uninterp spec fn unicode_lowercase(s: Seq<char>) -> Seq<char>;

/// `str::to_lowercase`: the string mapped to lower case by the Unicode rules
/// of the standard library; the result depends on the string alone.
#[verifier::external_body]
fn lowercase(s: &str) -> (r: String)
    ensures
        r@ == unicode_lowercase(s@),
{
    s.to_lowercase()
}

/// The selection of stored experiments, with each experiment's best Sharpe
/// ratio and number of strategies.
pub open spec fn experiments_select() -> Seq<char> {
    "SELECT e.id, e.name, e.icon, e.tags, e.description, e.started_at, e.finished_at, e.status,\n                    (SELECT MAX(TRY_CAST(regexp_extract(s.metrics, '\"sharpe\"\\s*:\\s*(-?[0-9.eE+\\-]+)', 1) AS DOUBLE))\n                       FROM experiment_strategies s\n                      WHERE s.experiment_id = e.id\n                    ) AS best_sharpe,\n                    (SELECT COUNT(*) FROM experiment_strategies s WHERE s.experiment_id = e.id) AS n_strategies\n             FROM experiments e"@
}

/// The filters of an experiment query: by id, then by a case-insensitive
/// search of the name and tags (an absent or empty search does not filter).
pub open spec fn experiments_filters(ids: Option<Seq<Seq<char>>>, search: Option<Seq<char>>) -> (Seq<Seq<char>>, Seq<Seq<char>>) {
    let a = filter("e.id"@, ids);
    match search {
        Some(q) => if q.len() > 0 {
            let pat = "%"@ + unicode_lowercase(q) + "%"@;
            (a.0.push("(LOWER(name) LIKE ? OR LOWER(tags) LIKE ?)"@), a.1 + seq![pat, pat])
        } else {
            a
        },
        None => a,
    }
}

/// The query for stored experiments, filtered by id and by a search of names
/// and tags, newest first, with an optional row limit.
pub fn query_experiments_sql(ids: Option<&Vec<String>>, search: Option<&str>, limit: Option<usize>) -> (r: SqlQuery)
    ensures
        r.sql@ == experiments_select() + where_part(experiments_filters(opt_views(ids), opt_str(search)).0)
            + " ORDER BY started_at DESC"@ + limit_part(limit),
        views(r.params@) == experiments_filters(opt_views(ids), opt_str(search)).1,
{
    let mut clauses: Vec<String> = Vec::new();
    let mut params: Vec<String> = Vec::new();
    add_filter(&mut clauses, &mut params, "e.id", copy_strings(ids));
    match search {
        Some(q) => {
            if q.unicode_len() > 0 {
                let low = lowercase(q);
                let pat = concat3("%", low.as_str(), "%");
                let ghost prev = clauses@;
                clauses.push(owned("(LOWER(name) LIKE ? OR LOWER(tags) LIKE ?)"));
                proof {
                    lemma_views_push(prev, clauses@.last());
                }
                let ghost pprev = params@;
                params.push(pat.clone());
                proof {
                    lemma_views_push(pprev, params@.last());
                }
                let ghost pprev2 = params@;
                params.push(pat);
                proof {
                    lemma_views_push(pprev2, params@.last());
                }
                assert(views(params@) =~= experiments_filters(opt_views(ids), opt_str(search)).1);
            }
        },
        None => {},
    }
    let sql = finish_query(
        "SELECT e.id, e.name, e.icon, e.tags, e.description, e.started_at, e.finished_at, e.status,\n                    (SELECT MAX(TRY_CAST(regexp_extract(s.metrics, '\"sharpe\"\\s*:\\s*(-?[0-9.eE+\\-]+)', 1) AS DOUBLE))\n                       FROM experiment_strategies s\n                      WHERE s.experiment_id = e.id\n                    ) AS best_sharpe,\n                    (SELECT COUNT(*) FROM experiment_strategies s WHERE s.experiment_id = e.id) AS n_strategies\n             FROM experiments e",
        &clauses,
        " ORDER BY started_at DESC",
        limit,
    );
    SqlQuery { sql, params }
}

/// The characters of an optional string.
pub open spec fn opt_str(s: Option<&str>) -> Option<Seq<char>> {
    match s {
        Some(s) => Some(s@),
        None => None,
    }
}

/// The tags of a stored experiment: none for an empty column, else its
/// comma-separated parts.
pub fn experiment_tags(tags: &str) -> (r: Vec<String>)
    ensures
        tags@.len() == 0 ==> r@.len() == 0,
        tags@.len() > 0 ==> views(r@) == split_char(tags@, ','),
{
    if tags.unicode_len() == 0 {
        Vec::new()
    } else {
        split_on_char(tags, ',')
    }
}

// ───────────────────────────── placeholders ─────────────────────────────

/// The number of `?` placeholders in a statement.
pub open spec fn marks(s: Seq<char>) -> nat
    decreases s.len(),
{
    if s.len() == 0 {
        0
    } else {
        marks(s.drop_last()) + if s.last() == '?' { 1nat } else { 0nat }
    }
}

/// The placeholders of each part, added up.
pub open spec fn sum_marks(parts: Seq<Seq<char>>) -> nat
    decreases parts.len(),
{
    if parts.len() == 0 {
        0
    } else {
        sum_marks(parts.drop_last()) + marks(parts.last())
    }
}

proof fn lemma_marks_concat(a: Seq<char>, b: Seq<char>)
    ensures
        marks(a + b) == marks(a) + marks(b),
    decreases b.len(),
{
    if b.len() > 0 {
        lemma_marks_concat(a, b.drop_last());
        assert((a + b).drop_last() =~= a + b.drop_last());
    } else {
        assert(a + b =~= a);
    }
}

proof fn lemma_marks_join(parts: Seq<Seq<char>>, sep: Seq<char>)
    requires
        marks(sep) == 0,
    ensures
        marks(join(parts, sep)) == sum_marks(parts),
    decreases parts.len(),
{
    if parts.len() == 1 {
        assert(sum_marks(parts) == sum_marks(parts.drop_last()) + marks(parts.last()));
        assert(parts.drop_last().len() == 0);
    } else if parts.len() > 1 {
        lemma_marks_join(parts.drop_last(), sep);
        lemma_marks_concat(join(parts.drop_last(), sep), sep);
        lemma_marks_concat(join(parts.drop_last(), sep) + sep, parts.last());
    }
}

proof fn lemma_sum_marks_concat(a: Seq<Seq<char>>, b: Seq<Seq<char>>)
    ensures
        sum_marks(a + b) == sum_marks(a) + sum_marks(b),
    decreases b.len(),
{
    if b.len() > 0 {
        lemma_sum_marks_concat(a, b.drop_last());
        assert((a + b).drop_last() =~= a + b.drop_last());
    } else {
        assert(a + b =~= a);
    }
}

proof fn lemma_decimal_unmarked(n: nat)
    ensures
        marks(decimal(n)) == 0,
    decreases n,
{
    let d = n % 10;
    assert(digit_char(d) as int == d + 48);
    assert(digit_char(d) != '?');
    let t = decimal(n);
    if n >= 10 {
        lemma_decimal_unmarked(n / 10);
        assert(t == decimal(n / 10).push(digit_char(d)));
        assert(t.drop_last() =~= decimal(n / 10));
        assert(t.last() == digit_char(d));
    } else {
        assert(t == seq![digit_char(n)]);
        assert(t.drop_last() =~= Seq::<char>::empty());
        assert(marks(Seq::<char>::empty()) == 0);
        assert(t.last() == digit_char(d));
    }
    assert(marks(t) == marks(t.drop_last()) + if t.last() == '?' { 1nat } else { 0nat });
}

proof fn lemma_placeholder_list(n: nat)
    ensures
        marks(placeholder_list(n)) == n,
    decreases n,
{
    reveal_strlit("?");
    reveal_strlit(", ");
    lemma_unmarked_literal(", "@);
    assert(marks("?"@) == 1) by {
        assert("?"@.len() == 1);
        assert("?"@[0] == '?');
        assert("?"@.drop_last() =~= Seq::<char>::empty());
        assert(marks(Seq::<char>::empty()) == 0);
        assert(marks("?"@) == marks("?"@.drop_last()) + if "?"@.last() == '?' { 1nat } else { 0nat });
    }
    let parts = Seq::new(n, |i: int| "?"@);
    lemma_marks_join(parts, ", "@);
    lemma_sum_marks_repeat(n);
}

proof fn lemma_sum_marks_repeat(n: nat)
    requires
        marks("?"@) == 1,
    ensures
        sum_marks(Seq::new(n, |i: int| "?"@)) == n,
    decreases n,
{
    if n > 0 {
        lemma_sum_marks_repeat((n - 1) as nat);
        assert(Seq::new(n, |i: int| "?"@).drop_last() =~= Seq::new((n - 1) as nat, |i: int| "?"@));
    }
}

proof fn lemma_filter_marks(col: Seq<char>, values: Option<Seq<Seq<char>>>)
    requires
        marks(col) == 0,
    ensures
        sum_marks(filter(col, values).0) == filter(col, values).1.len(),
{
    match values {
        Some(v) => if v.len() > 0 {
            reveal_strlit(" IN (");
            reveal_strlit(")");
            lemma_unmarked_literal(" IN ("@);
            lemma_unmarked_literal(")"@);
            lemma_placeholder_list(v.len());
            lemma_marks_concat(col, " IN ("@);
            lemma_marks_concat(col + " IN ("@, placeholder_list(v.len()));
            lemma_marks_concat(col + " IN ("@ + placeholder_list(v.len()), ")"@);
            let cl = seq![in_clause(col, v.len())];
            assert(cl.drop_last() =~= Seq::<Seq<char>>::empty());
            assert(sum_marks(Seq::<Seq<char>>::empty()) == 0);
            assert(sum_marks(cl) == sum_marks(cl.drop_last()) + marks(cl.last()));
            assert(marks(in_clause(col, v.len())) == v.len());
        },
        None => {},
    }
}

proof fn lemma_unmarked_literal(s: Seq<char>)
    requires
        forall|i: int| 0 <= i < s.len() ==> s[i] != '?',
    ensures
        marks(s) == 0,
    decreases s.len(),
{
    if s.len() > 0 {
        lemma_unmarked_literal(s.drop_last());
    }
}

proof fn lemma_statement_marks(base: Seq<char>, clauses: Seq<Seq<char>>, order: Seq<char>, limit: Option<usize>)
    requires
        marks(base) == 0,
        marks(order) == 0,
    ensures
        marks(base + where_part(clauses) + order + limit_part(limit)) == sum_marks(clauses),
{
    reveal_strlit(" WHERE ");
    reveal_strlit(" AND ");
    reveal_strlit(" LIMIT ");
    lemma_unmarked_literal(" WHERE "@);
    lemma_unmarked_literal(" AND "@);
    lemma_unmarked_literal(" LIMIT "@);
    if clauses.len() > 0 {
        lemma_marks_join(clauses, " AND "@);
        lemma_marks_concat(" WHERE "@, join(clauses, " AND "@));
    }
    match limit {
        Some(n) => {
            lemma_decimal_unmarked(n as nat);
            lemma_marks_concat(" LIMIT "@, decimal(n as nat));
        },
        None => {},
    }
    lemma_marks_concat(base, where_part(clauses));
    lemma_marks_concat(base + where_part(clauses), order);
    lemma_marks_concat(base + where_part(clauses) + order, limit_part(limit));
}

/// A bar query has exactly one placeholder per parameter, in whatever
/// combination of filters and limit it is built.
pub proof fn law_bar_query_placeholders_match_params(
    symbols: Option<Seq<Seq<char>>>,
    intervals: Option<Seq<Seq<char>>>,
    providers: Option<Seq<Seq<char>>>,
    limit: Option<usize>,
)
    ensures
        marks(bars_select() + where_part(bars_filters(symbols, intervals, providers).0) + " ORDER BY symbol, interval, open_ts"@
            + limit_part(limit)) == bars_filters(symbols, intervals, providers).1.len(),
{
    reveal_strlit("SELECT symbol, interval, provider,\n                    open_ts, close_ts, open_ts_exchange,\n                    open, high, low, close, adj_close, volume, n_trades\n             FROM bars");
    reveal_strlit(" ORDER BY symbol, interval, open_ts");
    reveal_strlit("symbol");
    reveal_strlit("interval");
    reveal_strlit("provider");
    lemma_unmarked_literal(bars_select());
    lemma_unmarked_literal(" ORDER BY symbol, interval, open_ts"@);
    lemma_unmarked_literal("symbol"@);
    lemma_unmarked_literal("interval"@);
    lemma_unmarked_literal("provider"@);
    let a = filter("symbol"@, symbols);
    let b = filter("interval"@, intervals);
    let c = filter("provider"@, providers);
    lemma_filter_marks("symbol"@, symbols);
    lemma_filter_marks("interval"@, intervals);
    lemma_filter_marks("provider"@, providers);
    lemma_sum_marks_concat(a.0, b.0);
    lemma_sum_marks_concat(a.0 + b.0, c.0);
    lemma_statement_marks(bars_select(), bars_filters(symbols, intervals, providers).0, " ORDER BY symbol, interval, open_ts"@, limit);
}

/// A dividend query has exactly one placeholder per parameter.
pub proof fn law_dividend_query_placeholders_match_params(
    symbols: Option<Seq<Seq<char>>>,
    providers: Option<Seq<Seq<char>>>,
    limit: Option<usize>,
)
    ensures
        marks(dividends_select() + where_part(dividends_filters(symbols, providers).0) + " ORDER BY symbol, ex_date"@
            + limit_part(limit)) == dividends_filters(symbols, providers).1.len(),
{
    reveal_strlit("SELECT symbol, provider, ex_date, amount\n             FROM dividends");
    reveal_strlit(" ORDER BY symbol, ex_date");
    reveal_strlit("symbol");
    reveal_strlit("provider");
    lemma_unmarked_literal(dividends_select());
    lemma_unmarked_literal(" ORDER BY symbol, ex_date"@);
    lemma_unmarked_literal("symbol"@);
    lemma_unmarked_literal("provider"@);
    lemma_filter_marks("symbol"@, symbols);
    lemma_filter_marks("provider"@, providers);
    lemma_sum_marks_concat(filter("symbol"@, symbols).0, filter("provider"@, providers).0);
    lemma_statement_marks(dividends_select(), dividends_filters(symbols, providers).0, " ORDER BY symbol, ex_date"@, limit);
}

/// An instrument query has exactly one placeholder per parameter.
pub proof fn law_instrument_query_placeholders_match_params(
    types: Option<Seq<Seq<char>>>,
    providers: Option<Seq<Seq<char>>>,
    exchanges: Option<Seq<Seq<char>>>,
    limit: Option<usize>,
)
    ensures
        marks(instruments_select() + where_part(instruments_filters(types, providers, exchanges).0) + " ORDER BY symbol"@
            + limit_part(limit)) == instruments_filters(types, providers, exchanges).1.len(),
{
    reveal_strlit("SELECT symbol, provider, instrument_type, name, base, quote, exchange\n             FROM instruments");
    reveal_strlit(" ORDER BY symbol");
    reveal_strlit("instrument_type");
    reveal_strlit("provider");
    reveal_strlit("exchange");
    lemma_unmarked_literal(instruments_select());
    lemma_unmarked_literal(" ORDER BY symbol"@);
    lemma_unmarked_literal("instrument_type"@);
    lemma_unmarked_literal("provider"@);
    lemma_unmarked_literal("exchange"@);
    let a = filter("instrument_type"@, types);
    let b = filter("provider"@, providers);
    let c = filter("exchange"@, exchanges);
    lemma_filter_marks("instrument_type"@, types);
    lemma_filter_marks("provider"@, providers);
    lemma_filter_marks("exchange"@, exchanges);
    lemma_sum_marks_concat(a.0, b.0);
    lemma_sum_marks_concat(a.0 + b.0, c.0);
    lemma_statement_marks(
        instruments_select(),
        instruments_filters(types, providers, exchanges).0,
        " ORDER BY symbol"@,
        limit,
    );
}

} // verus!
