//! Live market-data streams: which providers can stream, what to subscribe to,
//! and how stream timestamps are interpreted.

use vstd::prelude::*;
use crate::models::{interval_label, interval_minutes, Interval, Provider};
use crate::symbols::{compact_spec, compact_symbol, dash_spec, dash_symbol, slash_spec, slash_symbol};
use crate::text::{concat, concat3, is_blank, is_blank_seq, owned, views};
use crate::timestamps::{parse_rfc3339, rfc3339_parse};

verus! {

/// Errors returned by live market-data streams.
#[derive(Debug, Clone, PartialEq, Eq)]
pub enum LiveStreamError {
    /// The provider or request cannot be streamed.
    Unsupported(String),
    /// The WebSocket transport failed; holds the transport's error message.
    WebSocket(String),
    /// A provider message could not be interpreted.
    InvalidMessage(String),
}

/// A [`LiveStreamError`] with its message as a sequence of characters.
pub enum StreamErrorView {
    Unsupported(Seq<char>),
    WebSocket(Seq<char>),
    InvalidMessage(Seq<char>),
}

impl View for LiveStreamError {
    type V = StreamErrorView;

    open spec fn view(&self) -> StreamErrorView {
        match self {
            LiveStreamError::Unsupported(m) => StreamErrorView::Unsupported(m@),
            LiveStreamError::WebSocket(m) => StreamErrorView::WebSocket(m@),
            LiveStreamError::InvalidMessage(m) => StreamErrorView::InvalidMessage(m@),
        }
    }
}

/// The text shown for a stream error.
pub open spec fn stream_error_text(e: StreamErrorView) -> Seq<char> {
    match e {
        StreamErrorView::Unsupported(m) => m,
        StreamErrorView::WebSocket(m) => "websocket error: "@ + m,
        StreamErrorView::InvalidMessage(m) => "invalid provider message: "@ + m,
    }
}

impl LiveStreamError {
    /// The text shown for the error (its `Display` form).
    pub fn message(&self) -> (r: String)
        ensures
            r@ == stream_error_text(self@),
    {
        match self {
            LiveStreamError::Unsupported(m) => m.clone(),
            LiveStreamError::WebSocket(m) => concat("websocket error: ", m.as_str()),
            LiveStreamError::InvalidMessage(m) => concat("invalid provider message: ", m.as_str()),
        }
    }
}

/// Why a provider cannot stream candles at an interval, if it cannot.
pub open spec fn support_spec(p: Provider, iv: Interval) -> Result<Seq<char>, Seq<char>> {
    match p {
        Provider::Yahoo => Err("Yahoo Finance does not expose an official market-data WebSocket; use Binance, Coinbase, or Kraken for live trading"@),
        Provider::Coinbase => if iv != Interval::FiveMinutes {
            Err("Coinbase's public candles WebSocket emits five-minute candles only; select interval='5m'"@)
        } else {
            Ok("Coinbase Advanced Trade public candles WebSocket"@)
        },
        Provider::Binance => Ok("Binance public kline WebSocket"@),
        Provider::Kraken => Ok("Kraken public OHLC WebSocket v2"@),
    }
}

/// Explain whether a provider can stream the requested candle interval.
pub fn support_message(provider: Provider, interval: Interval) -> (r: Result<&'static str, String>)
    ensures
        match support_spec(provider, interval) {
            Ok(m) => r is Ok && r->Ok_0@ == m,
            Err(m) => r is Err && r->Err_0@ == m,
        },
{
    match provider {
        Provider::Yahoo => Err(owned(
            "Yahoo Finance does not expose an official market-data WebSocket; use Binance, Coinbase, or Kraken for live trading",
        )),
        Provider::Coinbase => {
            if interval != Interval::FiveMinutes {
                Err(owned(
                    "Coinbase's public candles WebSocket emits five-minute candles only; select interval='5m'",
                ))
            } else {
                Ok("Coinbase Advanced Trade public candles WebSocket")
            }
        },
        Provider::Binance => Ok("Binance public kline WebSocket"),
        Provider::Kraken => Ok("Kraken public OHLC WebSocket v2"),
    }
}

/// No symbol is requested, or one of them is blank.
pub open spec fn symbols_invalid(symbols: Seq<Seq<char>>) -> bool {
    symbols.len() == 0 || exists|i: int| 0 <= i < symbols.len() && is_blank_seq(#[trigger] symbols[i])
}

/// Whether a subscription can be made: the provider must stream the interval,
/// and at least one symbol must be requested, none of them blank.
pub fn validate_subscription(provider: Provider, symbols: &Vec<String>, interval: Interval) -> (r: Result<(), LiveStreamError>)
    ensures
        support_spec(provider, interval) matches Err(m) ==> r is Err && r->Err_0 is Unsupported && r->Err_0->Unsupported_0@ == m,
        support_spec(provider, interval) is Ok && symbols_invalid(views(symbols@)) ==> r is Err && r->Err_0 is Unsupported
            && r->Err_0->Unsupported_0@ == "at least one non-empty symbol is required"@,
        support_spec(provider, interval) is Ok && !symbols_invalid(views(symbols@)) ==> r is Ok,
{
    match support_message(provider, interval) {
        Err(m) => {
            return Err(LiveStreamError::Unsupported(m));
        },
        Ok(_) => {},
    }
    let mut blank = symbols.len() == 0;
    let mut i: usize = 0;
    while i < symbols.len() && !blank
        invariant
            i <= symbols.len(),
            blank == (symbols@.len() == 0 || exists|j: int| 0 <= j < i && is_blank_seq(#[trigger] views(symbols@)[j])),
        decreases symbols.len() - i,
    {
        if is_blank(symbols[i].as_str()) {
            assert(is_blank_seq(views(symbols@)[i as int]));
            blank = true;
        }
        i = i + 1;
    }
    if blank {
        Err(LiveStreamError::Unsupported(owned("at least one non-empty symbol is required")))
    } else {
        assert(!symbols_invalid(views(symbols@))) by {
            assert(i == symbols.len());
        }
        Ok(())
    }
}

/// Check the settings of a reusable live feed: the provider must stream the
/// interval, at least one symbol must be requested, none of them blank, and
/// at least one connection attempt must be allowed.
pub fn validate_feed(provider: Provider, symbols: &Vec<String>, interval: Interval, reconnect_attempts: usize) -> (r: Result<(), String>)
    ensures
        support_spec(provider, interval) matches Err(m) ==> r is Err && r->Err_0@ == m,
        support_spec(provider, interval) is Ok && symbols_invalid(views(symbols@)) ==> r is Err
            && r->Err_0@ == "at least one non-empty symbol is required"@,
        support_spec(provider, interval) is Ok && !symbols_invalid(views(symbols@)) && reconnect_attempts == 0 ==> r is Err
            && r->Err_0@ == "reconnect_attempts must be positive"@,
        support_spec(provider, interval) is Ok && !symbols_invalid(views(symbols@)) && reconnect_attempts > 0 ==> r is Ok,
{
    match validate_subscription(provider, symbols, interval) {
        Err(LiveStreamError::Unsupported(m)) => return Err(m),
        Err(LiveStreamError::WebSocket(m)) => return Err(m),
        Err(LiveStreamError::InvalidMessage(m)) => return Err(m),
        Ok(()) => {},
    }
    if reconnect_attempts == 0 {
        return Err(owned("reconnect_attempts must be positive"));
    }
    Ok(())
}

/// Check the size of a collection batch: at least one update must be asked for.
pub fn validate_batch_size(max_events: usize) -> (r: Result<(), String>)
    ensures
        max_events == 0 ==> r is Err && r->Err_0@ == "max_events must be positive"@,
        max_events > 0 ==> r is Ok,
{
    if max_events == 0 {
        return Err(owned("max_events must be positive"));
    }
    Ok(())
}

/// The largest live instrument catalog that can be asked for.
pub const MAX_CATALOG_SIZE: usize = 10_000;

/// Check a request for a provider's live instrument catalog, giving the number
/// of instruments to ask the provider for: the provider must stream and the
/// limit must be positive; the limit is capped at [`MAX_CATALOG_SIZE`].
pub fn catalog_request(provider: Provider, limit: usize) -> (r: Result<usize, String>)
    ensures
        provider is Yahoo ==> r is Err && r->Err_0@ == "Yahoo Finance does not expose an official market-data WebSocket"@,
        provider !is Yahoo && limit == 0 ==> r is Err && r->Err_0@ == "limit must be positive"@,
        provider !is Yahoo && limit > 0 ==> r == Ok::<usize, String>(if limit < MAX_CATALOG_SIZE { limit } else { MAX_CATALOG_SIZE }),
{
    if provider == Provider::Yahoo {
        return Err(owned("Yahoo Finance does not expose an official market-data WebSocket"));
    }
    if limit == 0 {
        return Err(owned("limit must be positive"));
    }
    Ok(if limit < MAX_CATALOG_SIZE { limit } else { MAX_CATALOG_SIZE })
}

/// The candle subscription to send to a provider.
#[derive(Debug, Clone, PartialEq, Eq)]
pub enum Subscription {
    /// Binance: one `symbol@kline_interval` stream name per symbol.
    Binance { params: Vec<String> },
    /// Coinbase: the candles channel for the dash-separated product ids.
    Coinbase { product_ids: Vec<String> },
    /// Kraken: the OHLC channel for slash-separated pairs at an interval in minutes.
    Kraken { symbols: Vec<String>, interval_minutes: u64 },
}

/// The Binance stream name of a symbol at an interval.
pub open spec fn binance_stream(symbol: Seq<char>, iv: Interval) -> Seq<char> {
    compact_spec(symbol) + "@kline_"@ + interval_label(iv)
}

/// The subscription for the symbols at an interval; Yahoo has no market-data WebSocket.
pub fn subscription_message(provider: Provider, symbols: &Vec<String>, interval: Interval) -> (r: Result<Subscription, LiveStreamError>)
    ensures
        provider == Provider::Yahoo ==> r is Err && r->Err_0 is Unsupported
            && r->Err_0->Unsupported_0@ == "Yahoo Finance does not expose a market-data WebSocket"@,
        provider == Provider::Binance ==> r is Ok && r->Ok_0 is Binance && views(r->Ok_0->params@) == Seq::new(
            symbols@.len(),
            |i: int| binance_stream(symbols@[i]@, interval),
        ),
        provider == Provider::Coinbase ==> r is Ok && r->Ok_0 is Coinbase && views(r->Ok_0->product_ids@) == Seq::new(
            symbols@.len(),
            |i: int| dash_spec(symbols@[i]@),
        ),
        provider == Provider::Kraken ==> r is Ok && r->Ok_0 is Kraken && views(r->Ok_0->Kraken_symbols@) == Seq::new(
            symbols@.len(),
            |i: int| slash_spec(symbols@[i]@),
        ) && r->Ok_0->interval_minutes == interval_minutes(interval),
{
    match provider {
        Provider::Yahoo => Err(LiveStreamError::Unsupported(owned("Yahoo Finance does not expose a market-data WebSocket"))),
        Provider::Binance => {
            let label = interval.label();
            let mut params: Vec<String> = Vec::new();
            let mut i: usize = 0;
            while i < symbols.len()
                invariant
                    i <= symbols.len(),
                    label@ == interval_label(interval),
                    params.len() == i,
                    forall|j: int| 0 <= j < i ==> #[trigger] params@[j]@ == binance_stream(symbols@[j]@, interval),
                decreases symbols.len() - i,
            {
                let c = compact_symbol(symbols[i].as_str());
                params.push(concat3(c.as_str(), "@kline_", label.as_str()));
                i = i + 1;
            }
            assert(views(params@) =~= Seq::new(symbols@.len(), |k: int| binance_stream(symbols@[k]@, interval)));
            Ok(Subscription::Binance { params })
        },
        Provider::Coinbase => {
            let mut ids: Vec<String> = Vec::new();
            let mut i: usize = 0;
            while i < symbols.len()
                invariant
                    i <= symbols.len(),
                    ids.len() == i,
                    forall|j: int| 0 <= j < i ==> #[trigger] ids@[j]@ == dash_spec(symbols@[j]@),
                decreases symbols.len() - i,
            {
                ids.push(dash_symbol(symbols[i].as_str()));
                i = i + 1;
            }
            assert(views(ids@) =~= Seq::new(symbols@.len(), |k: int| dash_spec(symbols@[k]@)));
            Ok(Subscription::Coinbase { product_ids: ids })
        },
        Provider::Kraken => {
            let mut pairs: Vec<String> = Vec::new();
            let mut i: usize = 0;
            while i < symbols.len()
                invariant
                    i <= symbols.len(),
                    pairs.len() == i,
                    forall|j: int| 0 <= j < i ==> #[trigger] pairs@[j]@ == slash_spec(symbols@[j]@),
                decreases symbols.len() - i,
            {
                pairs.push(slash_symbol(symbols[i].as_str()));
                i = i + 1;
            }
            assert(views(pairs@) =~= Seq::new(symbols@.len(), |k: int| slash_spec(symbols@[k]@)));
            Ok(Subscription::Kraken { symbols: pairs, interval_minutes: interval.minutes() })
        },
    }
}

/// Convert a millisecond timestamp to whole seconds.
pub fn millis_to_seconds(timestamp: u64) -> (r: u64)
    ensures
        r == timestamp / 1000,
{
    timestamp / 1_000
}

/// The candle open time of a Kraken OHLC message, from its `interval_begin` text.
pub fn kraken_open_ts(begin: &str) -> (r: Result<u64, LiveStreamError>)
    ensures
        match rfc3339_parse(begin@) {
            Ok(t) => if t < 0 {
                r is Err && r->Err_0 is InvalidMessage
                    && r->Err_0->InvalidMessage_0@ == "Kraken timestamp predates Unix epoch"@
            } else {
                r == Ok::<u64, LiveStreamError>(t as u64)
            },
            Err(e) => r is Err && r->Err_0 is InvalidMessage && r->Err_0->InvalidMessage_0@ == e,
        },
{
    match parse_rfc3339(begin) {
        Ok(t) => {
            if t < 0 {
                Err(LiveStreamError::InvalidMessage(owned("Kraken timestamp predates Unix epoch")))
            } else {
                Ok(t as u64)
            }
        },
        Err(e) => Err(LiveStreamError::InvalidMessage(e)),
    }
}

/// Calls `SystemTime::now().duration_since(UNIX_EPOCH)` and, on success,
/// `Duration::as_secs`. The clock is read, so nothing is stated of the value.
#[verifier::external_body]
fn seconds_since_epoch() -> (r: Option<u64>) {
    std::time::SystemTime::now().duration_since(std::time::UNIX_EPOCH).ok().map(|d| d.as_secs())
}

/// The timestamp recorded for a clock reading: the seconds since the epoch
/// (at most `i64::MAX`), or 0 when the clock reads before the epoch.
pub open spec fn clock_ts(reading: Option<u64>) -> i64 {
    match reading {
        Some(s) => if s <= i64::MAX { s as i64 } else { i64::MAX },
        None => 0,
    }
}

/// The timestamp recorded for a clock reading (see [`clock_ts`]).
pub fn timestamp_from_clock(reading: Option<u64>) -> (r: i64)
    ensures
        r == clock_ts(reading),
{
    match reading {
        Some(s) => if s <= i64::MAX as u64 { s as i64 } else { i64::MAX },
        None => 0,
    }
}

/// The current Unix time in seconds, or 0 when the clock reads before the epoch.
/// The clock decides the value; whatever it reads, the result is
/// [`clock_ts`] of that reading and so never negative.
pub fn received_ts() -> (r: i64)
    ensures
        r >= 0,
{
    timestamp_from_clock(seconds_since_epoch())
}

/// `initial` doubled `e` times, i.e. `initial · 2^e`.
pub open spec fn doubled(initial: nat, e: nat) -> nat
    decreases e,
{
    if e == 0 { initial } else { 2 * doubled(initial, (e - 1) as nat) }
}

/// The delay before reconnect attempt `exponent + 1`: `initial · 2^min(exponent, 8)`,
/// capped at five seconds (all in nanoseconds).
pub open spec fn backoff_spec(initial_nanos: nat, exponent: nat) -> nat {
    let e: nat = if exponent < 8 { exponent } else { 8 };
    let d = doubled(initial_nanos, e);
    if d < 5_000_000_000 { d } else { 5_000_000_000 }
}

/// The reconnect backoff, in nanoseconds.
pub fn exponential_backoff(initial_nanos: u64, exponent: usize) -> (r: u64)
    ensures
        r == backoff_spec(initial_nanos as nat, exponent as nat),
        r <= 5_000_000_000,
{
    let e: u64 = if exponent < 8 { exponent as u64 } else { 8 };
    let cap: u64 = 5_000_000_000;
    let mut d: u64 = initial_nanos;
    let mut k: u64 = 0;
    while k < e
        invariant
            k <= e <= 8,
            cap == 5_000_000_000,
            e == (if exponent < 8 { exponent as nat } else { 8 }),
            d == doubled(initial_nanos as nat, k as nat) || (d == cap && doubled(initial_nanos as nat, k as nat) >= cap),
        decreases e - k,
    {
        if d >= cap {
            d = cap;
        } else {
            d = d * 2;
        }
        k = k + 1;
    }
    if d >= cap {
        d = cap;
    }
    d
}

proof fn lemma_doubled_monotone(initial: nat, e1: nat, e2: nat)
    requires
        e1 <= e2,
    ensures
        doubled(initial, e1) <= doubled(initial, e2),
    decreases e2,
{
    if e1 < e2 {
        lemma_doubled_monotone(initial, e1, (e2 - 1) as nat);
    }
}

/// Later reconnect attempts never wait less than earlier ones, and never more
/// than five seconds.
pub proof fn law_backoff_grows_and_is_capped(initial_nanos: nat, e1: nat, e2: nat)
    requires
        e1 <= e2,
    ensures
        backoff_spec(initial_nanos, e1) <= backoff_spec(initial_nanos, e2),
        backoff_spec(initial_nanos, e2) <= 5_000_000_000,
{
    let a: nat = if e1 < 8 { e1 } else { 8 };
    let b: nat = if e2 < 8 { e2 } else { 8 };
    lemma_doubled_monotone(initial_nanos, a, b);
}

} // verus!
