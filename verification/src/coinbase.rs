//! Coinbase spot-market data provider: request parameters and response handling.
//!
//! The network requests themselves are made by the application; this module
//! holds every decision taken on their inputs and outputs.

use vstd::prelude::*;
use crate::models::{interval_seconds, DataError, Instrument, InstrumentType, Interval, Provider};
use crate::symbols::{canonical_symbol, canonical_symbol_spec};
use crate::text::{concat, owned, str_eq};
use crate::timestamps::{parse_rfc3339, rfc3339_parse};

verus! {

/// Coinbase spot-market data provider.
pub struct Coinbase;

/// Maximum candles returned by one request of the candles endpoint.
pub const MAX_CANDLES_PER_REQUEST: u64 = 350;

/// Coinbase's granularity name of an interval; Coinbase has no weekly candles.
pub open spec fn granularity_name(iv: Interval) -> Option<Seq<char>> {
    match iv {
        Interval::OneMinute => Some("ONE_MINUTE"@),
        Interval::FiveMinutes => Some("FIVE_MINUTE"@),
        Interval::FifteenMinutes => Some("FIFTEEN_MINUTE"@),
        Interval::ThirtyMinutes => Some("THIRTY_MINUTE"@),
        Interval::OneHour => Some("ONE_HOUR"@),
        Interval::FourHours => Some("FOUR_HOUR"@),
        Interval::OneDay => Some("ONE_DAY"@),
        Interval::OneWeek => None,
    }
}

/// One product entry from the products endpoint.
pub struct ProductInfo {
    /// Coinbase product id.
    pub product_id: String,
    /// Base currency id.
    pub base_currency_id: String,
    /// Quote currency id.
    pub quote_currency_id: String,
    /// Product lifecycle status; only `online` products are usable.
    pub status: Option<String>,
    /// Product launch timestamp used to anchor historical candle requests.
    pub new_at: Option<String>,
}

/// `inst` is the instrument that the product entry describes.
pub open spec fn describes_product(inst: Instrument, info: ProductInfo) -> bool {
    let symbol = canonical_symbol_spec(info.product_id@, Some(info.base_currency_id@), info.quote_currency_id@);
    &&& inst.symbol@ == symbol
    &&& inst.name@ == symbol
    &&& inst.base is Some && inst.base->0@ == info.base_currency_id@
    &&& inst.quote@ == info.quote_currency_id@
    &&& inst.instrument_type == InstrumentType::Crypto
    &&& inst.exchange@ == "COINBASE"@
    &&& inst.provider == Provider::Coinbase
}

/// The product is online.
pub open spec fn product_online(info: ProductInfo) -> bool {
    info.status is Some && info.status->0@ == "online"@
}

/// The positions of the online products, in order.
pub open spec fn online_products(products: Seq<ProductInfo>) -> Seq<int>
    decreases products.len(),
{
    if products.len() == 0 {
        Seq::empty()
    } else {
        let rest = online_products(products.drop_last());
        if product_online(products.last()) {
            rest.push(products.len() - 1)
        } else {
            rest
        }
    }
}

/// The listing of a prefix is a prefix of the listing.
pub proof fn lemma_online_prefix(products: Seq<ProductInfo>, n: int)
    requires
        0 <= n <= products.len(),
    ensures
        online_products(products.subrange(0, n)).len() <= online_products(products).len(),
        forall|j: int| 0 <= j < online_products(products.subrange(0, n)).len() ==> online_products(products.subrange(0, n))[j] == online_products(products)[j],
    decreases products.len() - n,
{
    if n == products.len() {
        assert(products.subrange(0, n) =~= products);
    } else {
        lemma_online_prefix(products, n + 1);
        assert(products.subrange(0, n + 1).drop_last() =~= products.subrange(0, n));
    }
}

/// The smallest element of a non-empty sequence.
pub open spec fn seq_min(s: Seq<u64>) -> u64
    decreases s.len(),
{
    if s.len() <= 1 {
        s[0]
    } else {
        let m = seq_min(s.drop_last());
        if s.last() < m { s.last() } else { m }
    }
}

/// The largest element of a non-empty sequence.
pub open spec fn seq_max(s: Seq<u64>) -> u64
    decreases s.len(),
{
    if s.len() <= 1 {
        s[0]
    } else {
        let m = seq_max(s.drop_last());
        if s.last() > m { s.last() } else { m }
    }
}

/// The smallest and largest elements of a non-empty vector.
pub fn min_max(v: &Vec<u64>) -> (r: (u64, u64))
    requires
        v.len() > 0,
    ensures
        r.0 == seq_min(v@),
        r.1 == seq_max(v@),
{
    let mut lo = v[0];
    let mut hi = v[0];
    let mut i: usize = 1;
    assert(v@.subrange(0, 1).len() == 1);
    while i < v.len()
        invariant
            1 <= i <= v.len(),
            lo == seq_min(v@.subrange(0, i as int)),
            hi == seq_max(v@.subrange(0, i as int)),
        decreases v.len() - i,
    {
        assert(v@.subrange(0, i + 1).drop_last() =~= v@.subrange(0, i as int));
        if v[i] < lo {
            lo = v[i];
        }
        if v[i] > hi {
            hi = v[i];
        }
        i = i + 1;
    }
    assert(v@.subrange(0, v.len() as int) =~= v@);
    (lo, hi)
}

/// The earliest candle of a launch-window probe, or `fallback` when the probe
/// failed or returned nothing.
pub open spec fn earliest_from_probe_spec(probe: Option<Seq<u64>>, fallback: u64) -> u64 {
    match probe {
        Some(starts) => if starts.len() > 0 { seq_min(starts) } else { fallback },
        None => fallback,
    }
}

impl Coinbase {
    /// Coinbase's granularity string for an interval.
    pub fn interval_granularity(interval: Interval) -> (r: Result<&'static str, DataError>)
        ensures
            match granularity_name(interval) {
                Some(g) => r is Ok && r->Ok_0@ == g,
                None => r == Err::<&'static str, DataError>(DataError::UnsupportedInterval(interval)),
            },
    {
        match interval {
            Interval::OneMinute => Ok("ONE_MINUTE"),
            Interval::FiveMinutes => Ok("FIVE_MINUTE"),
            Interval::FifteenMinutes => Ok("FIFTEEN_MINUTE"),
            Interval::ThirtyMinutes => Ok("THIRTY_MINUTE"),
            Interval::OneHour => Ok("ONE_HOUR"),
            Interval::FourHours => Ok("FOUR_HOUR"),
            Interval::OneDay => Ok("ONE_DAY"),
            Interval::OneWeek => Err(DataError::UnsupportedInterval(interval)),
        }
    }

    /// Checks whether the instrument type is supported by the provider (crypto only).
    pub fn check_instrument_type(instrument_type: InstrumentType) -> (r: Result<(), DataError>)
        ensures
            instrument_type == InstrumentType::Crypto ==> r is Ok,
            instrument_type != InstrumentType::Crypto ==> r == Err::<(), DataError>(DataError::UnsupportedInstrumentType(instrument_type)),
    {
        if instrument_type == InstrumentType::Crypto {
            Ok(())
        } else {
            Err(DataError::UnsupportedInstrumentType(instrument_type))
        }
    }

    /// The instrument described by a product entry.
    pub fn instrument_from_product(info: &ProductInfo) -> (r: Result<Instrument, DataError>)
        ensures
            r is Ok,
            describes_product(r->Ok_0, *info),
    {
        let base = info.base_currency_id.clone();
        let quote = info.quote_currency_id.clone();
        let some_base = Some(base.clone());
        let symbol = canonical_symbol(info.product_id.as_str(), &some_base, &quote);
        Ok(
            Instrument {
                symbol: symbol.clone(),
                name: symbol,
                base: Some(base),
                quote,
                instrument_type: InstrumentType::Crypto,
                exchange: owned("COINBASE"),
                provider: Provider::Coinbase,
            },
        )
    }

    /// The instruments of a product listing: online products, in order, at most `limit`.
    pub fn instruments_from_products(products: &Vec<ProductInfo>, limit: usize) -> (r: Vec<Instrument>)
        ensures
            r.len() == if online_products(products@).len() < limit {
                online_products(products@).len()
            } else {
                limit as nat
            },
            forall|i: int| 0 <= i < r.len() ==> describes_product(
                #[trigger] r@[i],
                products@[online_products(products@)[i]],
            ),
    {
        let mut out: Vec<Instrument> = Vec::new();
        let mut i: usize = 0;
        while i < products.len() && out.len() < limit
            invariant
                i <= products.len(),
                out.len() <= limit,
                out.len() == online_products(products@.subrange(0, i as int)).len(),
                forall|j: int| 0 <= j < out.len() ==> describes_product(
                    #[trigger] out@[j],
                    products@[online_products(products@.subrange(0, i as int))[j]],
                ),
            decreases products.len() - i,
        {
            let ghost pre = products@.subrange(0, i as int);
            let ghost nxt = products@.subrange(0, i + 1);
            assert(nxt.drop_last() =~= pre);
            let info = &products[i];
            let online = match &info.status {
                Some(st) => str_eq(st.as_str(), "online"),
                None => false,
            };
            if online {
                out.push(Coinbase::instrument_from_product(info).unwrap());
            }
            i = i + 1;
        }
        proof {
            lemma_online_prefix(products@, i as int);
            if i == products.len() {
                assert(products@.subrange(0, i as int) =~= products@);
            }
        }
        out
    }

    /// The most recent candle start, and the earliest one as a fallback for the
    /// start of the range; `SymbolNotFound` when no candle came back.
    pub fn latest_and_fallback(starts: &Vec<u64>, product_id: &str) -> (r: Result<(u64, u64), DataError>)
        ensures
            starts.len() == 0 ==> r is Err && r->Err_0 is SymbolNotFound && r->Err_0->SymbolNotFound_0@ == product_id@,
            starts.len() > 0 ==> r == Ok::<(u64, u64), DataError>((seq_max(starts@), seq_min(starts@))),
    {
        if starts.len() == 0 {
            return Err(DataError::SymbolNotFound(owned(product_id)));
        }
        let (lo, hi) = min_max(starts);
        Ok((hi, lo))
    }

    /// The Unix second at which a product was launched (negative instants clamp to 0),
    /// or an `UnexpectedResponse` naming the text when it is not an RFC 3339 date-time.
    pub fn listing_start(new_at: &str) -> (r: Result<u64, DataError>)
        ensures
            match rfc3339_parse(new_at@) {
                Ok(t) => r == Ok::<u64, DataError>(if t < 0 { 0 } else { t as u64 }),
                Err(_) => r is Err && r->Err_0 is UnexpectedResponse
                    && r->Err_0->UnexpectedResponse_0@ == "invalid Coinbase new_at timestamp: "@ + new_at@,
            },
    {
        match parse_rfc3339(new_at) {
            Ok(t) => Ok(if t < 0 { 0 } else { t as u64 }),
            Err(_) => Err(DataError::UnexpectedResponse(concat("invalid Coinbase new_at timestamp: ", new_at))),
        }
    }

    /// The request window that probes the first candles after launch: from the
    /// launch to at most `MAX_CANDLES_PER_REQUEST - 1` intervals later, saturating.
    pub fn probe_window(start: u64, interval: Interval) -> (r: (u64, u64))
        ensures
            r.0 == start,
            r.1 == if start + interval_seconds(interval) * 349 > u64::MAX { u64::MAX as int } else { start + interval_seconds(interval) * 349 },
    {
        let span = interval.seconds() * 349;
        (start, start.saturating_add(span))
    }

    /// The start of the usable range from the launch probe.
    pub fn earliest_from_probe(probe: Option<Vec<u64>>, fallback: u64) -> (r: u64)
        ensures
            r == earliest_from_probe_spec(
                match probe { Some(v) => Some(v@), None => None },
                fallback,
            ),
    {
        match probe {
            Some(starts) => {
                if starts.len() > 0 {
                    min_max(&starts).0
                } else {
                    fallback
                }
            },
            None => fallback,
        }
    }

    /// The next request window of a bar download, or `None` once `cursor` reached `end`.
    /// Windows span at most `MAX_CANDLES_PER_REQUEST - 1` intervals and never pass `end`.
    pub fn next_window(cursor: u64, end: u64, interval: Interval) -> (r: Option<(u64, u64)>)
        ensures
            cursor >= end ==> r is None,
            cursor < end ==> r == Some((
                cursor,
                (if end - cursor <= interval_seconds(interval) * 349 { end as int } else { cursor + interval_seconds(interval) * 349 }) as u64,
            )),
            r matches Some(w) ==> w.0 < w.1 <= end,
    {
        if cursor >= end {
            return None;
        }
        let window = interval.seconds() * (MAX_CANDLES_PER_REQUEST - 1);
        let batch_end = if end - cursor <= window { end } else { cursor + window };
        Some((cursor, batch_end))
    }
}

} // verus!
