//! Data models shared by the providers, the download planner and storage.

use vstd::prelude::*;
use crate::text::{decimal, decimal_string, join, join_strings, owned, push_char, views};

verus! {

/// Bar frequency / time-frame.
#[derive(Clone, Copy, Debug, PartialEq, Eq, Hash, Structural)]
pub enum Interval {
    OneMinute,
    FiveMinutes,
    FifteenMinutes,
    ThirtyMinutes,
    OneHour,
    FourHours,
    OneDay,
    OneWeek,
}

/// Length of an interval in minutes.
pub open spec fn interval_minutes(iv: Interval) -> nat {
    match iv {
        Interval::OneMinute => 1,
        Interval::FiveMinutes => 5,
        Interval::FifteenMinutes => 15,
        Interval::ThirtyMinutes => 30,
        Interval::OneHour => 60,
        Interval::FourHours => 240,
        Interval::OneDay => 1440,
        Interval::OneWeek => 10080,
    }
}

/// Length of an interval in seconds.
pub open spec fn interval_seconds(iv: Interval) -> nat {
    interval_minutes(iv) * 60
}

/// Short textual form of an interval (`1m`, `5m`, ..., `1w`).
pub open spec fn interval_label(iv: Interval) -> Seq<char> {
    match iv {
        Interval::OneMinute => seq!['1', 'm'],
        Interval::FiveMinutes => seq!['5', 'm'],
        Interval::FifteenMinutes => seq!['1', '5', 'm'],
        Interval::ThirtyMinutes => seq!['3', '0', 'm'],
        Interval::OneHour => seq!['1', 'h'],
        Interval::FourHours => seq!['4', 'h'],
        Interval::OneDay => seq!['1', 'd'],
        Interval::OneWeek => seq!['1', 'w'],
    }
}

/// A string made of two characters.
fn two_chars(a: char, b: char) -> (s: String)
    ensures
        s@ == seq![a, b],
{
    let mut s = String::new();
    push_char(&mut s, a);
    push_char(&mut s, b);
    assert(s@ =~= seq![a, b]);
    s
}

impl Interval {
    /// Length of the interval in minutes.
    pub fn minutes(&self) -> (m: u64)
        ensures
            m == interval_minutes(*self),
    {
        match self {
            Interval::OneMinute => 1,
            Interval::FiveMinutes => 5,
            Interval::FifteenMinutes => 15,
            Interval::ThirtyMinutes => 30,
            Interval::OneHour => 60,
            Interval::FourHours => 240,
            Interval::OneDay => 1440,
            Interval::OneWeek => 10080,
        }
    }

    /// Length of the interval in seconds.
    pub fn seconds(&self) -> (s: u64)
        ensures
            s == interval_seconds(*self),
    {
        self.minutes() * 60
    }

    /// Short textual form (`1m`, `5m`, `15m`, `30m`, `1h`, `4h`, `1d`, `1w`).
    pub fn label(&self) -> (s: String)
        ensures
            s@ == interval_label(*self),
    {
        match self {
            Interval::OneMinute => two_chars('1', 'm'),
            Interval::FiveMinutes => two_chars('5', 'm'),
            Interval::FifteenMinutes => {
                let mut s = two_chars('1', '5');
                push_char(&mut s, 'm');
                assert(s@ =~= seq!['1', '5', 'm']);
                s
            },
            Interval::ThirtyMinutes => {
                let mut s = two_chars('3', '0');
                push_char(&mut s, 'm');
                assert(s@ =~= seq!['3', '0', 'm']);
                s
            },
            Interval::OneHour => two_chars('1', 'h'),
            Interval::FourHours => two_chars('4', 'h'),
            Interval::OneDay => two_chars('1', 'd'),
            Interval::OneWeek => two_chars('1', 'w'),
        }
    }
}

/// Kind of traded instrument.
#[derive(Clone, Copy, Debug, PartialEq, Eq, Hash, Structural)]
pub enum InstrumentType {
    Stocks,
    Etf,
    Forex,
    Crypto,
}

/// Market-data provider.
#[derive(Clone, Copy, Debug, PartialEq, Eq, Hash, Structural)]
pub enum Provider {
    Binance,
    Coinbase,
    Kraken,
    Yahoo,
}

/// Lower-case name of a provider, as stored with its data.
pub open spec fn provider_name(p: Provider) -> Seq<char> {
    match p {
        Provider::Binance => "binance"@,
        Provider::Coinbase => "coinbase"@,
        Provider::Kraken => "kraken"@,
        Provider::Yahoo => "yahoo"@,
    }
}

impl Provider {
    /// Lower-case name of the provider.
    pub fn name(&self) -> (s: String)
        ensures
            s@ == provider_name(*self),
    {
        match self {
            Provider::Binance => owned("binance"),
            Provider::Coinbase => owned("coinbase"),
            Provider::Kraken => owned("kraken"),
            Provider::Yahoo => owned("yahoo"),
        }
    }
}

/// A tradable instrument and its provider metadata.
#[derive(Clone, Debug, PartialEq, Eq)]
pub struct Instrument {
    pub symbol: String,
    pub name: String,
    pub base: Option<String>,
    pub quote: String,
    pub instrument_type: InstrumentType,
    pub exchange: String,
    pub provider: Provider,
}

/// Copy of an optional string.
pub fn clone_opt(s: &Option<String>) -> (r: Option<String>)
    ensures
        r == *s,
{
    match s {
        Some(v) => Some(v.clone()),
        None => None,
    }
}

impl Instrument {
    /// A field-by-field copy.
    pub fn duplicate(&self) -> (r: Instrument)
        ensures
            r == *self,
    {
        Instrument {
            symbol: self.symbol.clone(),
            name: self.name.clone(),
            base: clone_opt(&self.base),
            quote: self.quote.clone(),
            instrument_type: self.instrument_type,
            exchange: self.exchange.clone(),
            provider: self.provider,
        }
    }
}

/// Errors raised while fetching or interpreting market data.
#[derive(Debug, PartialEq, Eq)]
pub enum DataError {
    /// The provider does not offer bars at this interval.
    UnsupportedInterval(Interval),
    /// The provider does not serve this kind of instrument.
    UnsupportedInstrumentType(InstrumentType),
    /// The provider does not know the symbol.
    SymbolNotFound(String),
    /// The provider answered with something that could not be interpreted.
    UnexpectedResponse(String),
    /// No conversion path exists between two currencies.
    NoConversionPath { from: String, to: String },
    /// Remaining tasks were skipped after this many consecutive failures.
    CircuitBreaker(usize),
    /// A request did not finish in time.
    Timeout { symbol: String, interval: Interval },
}

/// Errors raised by the persistent storage.
#[derive(Debug, PartialEq, Eq)]
pub enum StorageError {
    /// The database reported an error.
    Database(String),
    /// A value could not be serialized.
    Serialization(String),
    /// Stored data could not be interpreted.
    CorruptData(String),
}

/// Errors that the engine might return.
#[derive(Debug, PartialEq, Eq)]
pub enum EngineError {
    /// The configuration file could not be loaded.
    Config(String),
    /// An error caused by the data module.
    Data(DataError),
    /// An error while running an experiment.
    Experiment(String),
    /// A filesystem or I/O operation failed; holds the operating system's message.
    Io(String),
    /// An error caused by the storage module.
    Storage(StorageError),
}

/// Summary returned after a bulk download finishes.
///
/// Individual task failures are captured as warnings rather than aborting the
/// entire download, so callers can report partial success.
#[derive(Debug, Clone, PartialEq, Eq)]
pub struct DownloadResult {
    pub n_succeeded: usize,
    pub n_failed: usize,
    pub warnings: Vec<String>,
}

/// The `{:?}` rendering of a string: quoted, with special characters escaped.
pub uninterp spec fn debug_quoted(s: Seq<char>) -> Seq<char>;

/// Calls std's `Debug` formatting of a `str` (`format!("{s:?}")`). Its result is
/// named [`debug_quoted`] of the string's characters; nothing more is stated.
#[verifier::external_body]
pub(crate) fn quote_debug(s: &str) -> (r: String)
    ensures
        r@ == debug_quoted(s@),
{
    format!("{s:?}")
}

/// The text of a `DownloadResult`'s representation.
pub open spec fn download_result_repr(n_succeeded: nat, n_failed: nat, warnings: Seq<Seq<char>>) -> Seq<char> {
    "DownloadResult(n_succeeded="@ + decimal(n_succeeded) + ", n_failed="@ + decimal(n_failed)
        + ", warnings=["@ + join(Seq::new(warnings.len(), |i: int| debug_quoted(warnings[i])), ", "@)
        + "])"@
}

impl DownloadResult {
    /// Human-readable representation listing the counts and each quoted warning.
    #[allow(non_snake_case)]
    pub fn __repr__(&self) -> (r: String)
        ensures
            r@ == download_result_repr(
                self.n_succeeded as nat,
                self.n_failed as nat,
                views(self.warnings@),
            ),
    {
        let mut quoted: Vec<String> = Vec::new();
        let mut i: usize = 0;
        while i < self.warnings.len()
            invariant
                i <= self.warnings.len(),
                quoted.len() == i,
                forall|j: int| 0 <= j < i ==> quoted@[j]@ == debug_quoted(self.warnings@[j]@),
            decreases self.warnings.len() - i,
        {
            quoted.push(quote_debug(self.warnings[i].as_str()));
            i = i + 1;
        }
        let ghost ws = views(self.warnings@);
        assert(views(quoted@) =~= Seq::new(ws.len(), |k: int| debug_quoted(ws[k])));
        let mut r = owned("DownloadResult(n_succeeded=");
        r.append(decimal_string(self.n_succeeded as u64).as_str());
        r.append(", n_failed=");
        r.append(decimal_string(self.n_failed as u64).as_str());
        r.append(", warnings=[");
        r.append(join_strings(&quoted, ", ").as_str());
        r.append("])");
        r
    }
}

/// One paper-trading or replay session record as stored in the database.
#[derive(Clone, Debug, PartialEq, Eq)]
pub struct StoredLiveSession {
    /// Stable 16-character hexadecimal session identifier.
    pub id: String,
    /// Current terminal or active session status.
    pub status: String,
    /// UTC ISO-8601 timestamp at which the session started.
    pub started_at: String,
    /// UTC ISO-8601 timestamp at which the session finished, when terminal.
    pub finished_at: Option<String>,
    /// JSON-encoded session configuration.
    pub config: String,
    /// JSON-encoded latest account snapshot.
    pub snapshot: String,
    /// JSON-encoded connection and replay health state.
    pub health: String,
    /// Terminal error message, when the session failed.
    pub error: Option<String>,
}

} // verus!
