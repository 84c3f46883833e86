//! Kraken spot-market data provider: symbol conversion and response handling.
//!
//! The network requests themselves are made by the application; this module
//! holds every decision taken on their inputs and outputs.

use vstd::prelude::*;
use crate::currency::{currency_named, Currency};
use crate::models::{interval_seconds, DataError, Instrument, InstrumentType, Interval, Provider};
use crate::symbols::{canonical_symbol, canonical_symbol_spec};
use crate::text::{
    chars_of, contains_seq, contains_str, find_char, find_char_exec, join, join_strings,
    lemma_find_char, lemma_join_push, owned, split_char, split_on_char, str_eq, string_of_range,
    views,
};

verus! {

/// Kraken spot-market data provider.
pub struct Kraken;

/// Kraken's own name for a canonical ticker (`BTC` → `XBT`, `DOGE` → `XDG`).
pub open spec fn to_kraken_ticker(t: Seq<char>) -> Seq<char> {
    if t == "BTC"@ {
        "XBT"@
    } else if t == "DOGE"@ {
        "XDG"@
    } else {
        t
    }
}

/// The canonical name of a Kraken ticker (`XBT` → `BTC`, `XDG` → `DOGE`).
pub open spec fn normalize_ticker_spec(t: Seq<char>) -> Seq<char> {
    if t == "XBT"@ {
        "BTC"@
    } else if t == "XDG"@ {
        "DOGE"@
    } else {
        t
    }
}

/// A canonical pair in Kraken format: dash-separated legs renamed and concatenated.
pub open spec fn kraken_pair_spec(symbol: Seq<char>) -> Seq<char> {
    let parts = split_char(symbol, '-');
    join(Seq::new(parts.len(), |i: int| to_kraken_ticker(parts[i])), Seq::empty())
}

/// Kraken serves crypto and forex pairs only.
pub open spec fn kraken_supports(it: InstrumentType) -> bool {
    it == InstrumentType::Crypto || it == InstrumentType::Forex
}

/// Standard Kraken REST response envelope: `{"error": [...], "result": ...}`.
pub struct KrakenResponse<T> {
    pub error: Vec<String>,
    pub result: Option<T>,
}

/// Some error message mentions an unknown asset pair.
pub open spec fn mentions_unknown_pair(errors: Seq<Seq<char>>) -> bool {
    exists|i: int| 0 <= i < errors.len() && contains_seq(#[trigger] errors[i], "Unknown asset pair"@)
}

/// One trading pair entry from the asset-pairs endpoint.
pub struct PairInfo {
    /// WebSocket pair name, such as `XBT/USD`.
    pub wsname: Option<String>,
    /// Alternative pair name.
    pub altname: String,
    /// Base asset identifier.
    pub base: String,
    /// Quote asset identifier.
    pub quote: String,
    /// Pair lifecycle status; only `online` pairs are usable.
    pub status: String,
}

/// The (base, quote) tickers of a pair before normalization: from the WebSocket
/// name when present (split at its first `/`), else from the asset identifiers.
pub open spec fn pair_legs(wsname: Option<Seq<char>>, base: Seq<char>, quote: Seq<char>) -> (Seq<char>, Seq<char>) {
    match wsname {
        Some(ws) => {
            let k = find_char(ws, '/');
            if k < ws.len() {
                (ws.subrange(0, k as int), ws.subrange(k as int + 1, ws.len() as int))
            } else {
                (ws, quote)
            }
        },
        None => (base, quote),
    }
}

/// The instrument described by a Kraken pair.
pub open spec fn pair_instrument(wsname: Option<Seq<char>>, altname: Seq<char>, base: Seq<char>, quote: Seq<char>) -> (Seq<char>, Seq<char>, Seq<char>, InstrumentType) {
    let legs = pair_legs(wsname, base, quote);
    let b = normalize_ticker_spec(legs.0);
    let q = normalize_ticker_spec(legs.1);
    let symbol = canonical_symbol_spec(altname, Some(b), q);
    let it = if currency_named(b) is Some && currency_named(q) is Some {
        InstrumentType::Forex
    } else {
        InstrumentType::Crypto
    };
    (symbol, b, q, it)
}

/// `inst` is the instrument that the pair entry describes.
pub open spec fn describes_pair(inst: Instrument, info: PairInfo) -> bool {
    let (symbol, b, q, it) = pair_instrument(
        crate::symbols::opt_view(info.wsname),
        info.altname@,
        info.base@,
        info.quote@,
    );
    &&& inst.symbol@ == symbol
    &&& inst.name@ == symbol
    &&& inst.base is Some && inst.base->0@ == b
    &&& inst.quote@ == q
    &&& inst.instrument_type == it
    &&& inst.exchange@ == "KRAKEN"@
    &&& inst.provider == Provider::Kraken
}

/// The positions of the online pairs whose instrument has type `it`, in order.
pub open spec fn listed_pairs(pairs: Seq<PairInfo>, it: InstrumentType) -> Seq<int>
    decreases pairs.len(),
{
    if pairs.len() == 0 {
        Seq::empty()
    } else {
        let rest = listed_pairs(pairs.drop_last(), it);
        let last = pairs.last();
        if last.status@ == "online"@ && pair_instrument(
            crate::symbols::opt_view(last.wsname),
            last.altname@,
            last.base@,
            last.quote@,
        ).3 == it {
            rest.push(pairs.len() - 1)
        } else {
            rest
        }
    }
}

impl Kraken {
    /// Kraken's ticker for one canonical leg.
    fn kraken_ticker(part: &str) -> (r: String)
        ensures
            r@ == to_kraken_ticker(part@),
    {
        if str_eq(part, "BTC") {
            owned("XBT")
        } else if str_eq(part, "DOGE") {
            owned("XDG")
        } else {
            owned(part)
        }
    }

    /// Convert a canonical pair to Kraken format (`BTC-USD` → `XBTUSD`).
    pub fn parse_canonical_symbol(&self, symbol: &str) -> (r: String)
        ensures
            r@ == kraken_pair_spec(symbol@),
    {
        let parts = split_on_char(symbol, '-');
        let mut mapped: Vec<String> = Vec::new();
        let mut i: usize = 0;
        while i < parts.len()
            invariant
                i <= parts.len(),
                mapped.len() == i,
                forall|j: int| 0 <= j < i ==> mapped@[j]@ == to_kraken_ticker(parts@[j]@),
            decreases parts.len() - i,
        {
            mapped.push(Kraken::kraken_ticker(parts[i].as_str()));
            i = i + 1;
        }
        let r = join_strings(&mapped, "");
        proof {
            reveal_strlit("");
            assert(""@ =~= Seq::<char>::empty());
            let sp = split_char(symbol@, '-');
            assert(views(parts@) == sp);
            assert(views(mapped@) =~= Seq::new(sp.len(), |k: int| to_kraken_ticker(sp[k])));
        }
        r
    }

    /// Normalize a Kraken-specific ticker to its canonical name (`XBT` → `BTC`).
    pub fn normalize_ticker(ticker: &str) -> (r: String)
        ensures
            r@ == normalize_ticker_spec(ticker@),
    {
        if str_eq(ticker, "XBT") {
            owned("BTC")
        } else if str_eq(ticker, "XDG") {
            owned("DOGE")
        } else {
            owned(ticker)
        }
    }

    /// Checks whether the instrument type is supported by the provider.
    pub fn check_instrument_type(instrument_type: InstrumentType) -> (r: Result<(), DataError>)
        ensures
            kraken_supports(instrument_type) ==> r is Ok,
            !kraken_supports(instrument_type) ==> r == Err::<(), DataError>(DataError::UnsupportedInstrumentType(instrument_type)),
    {
        match instrument_type {
            InstrumentType::Crypto | InstrumentType::Forex => Ok(()),
            _ => Err(DataError::UnsupportedInstrumentType(instrument_type)),
        }
    }

    /// Unwrap the response envelope: the `result`, `SymbolNotFound` when an error
    /// mentions an unknown asset pair, else the first error string.
    pub fn unwrap_response<T>(resp: KrakenResponse<T>, symbol: &str) -> (r: Result<T, DataError>)
        ensures
            resp.error@.len() > 0 && mentions_unknown_pair(views(resp.error@)) ==> r is Err
                && r->Err_0 is SymbolNotFound && r->Err_0->SymbolNotFound_0@ == symbol@,
            resp.error@.len() > 0 && !mentions_unknown_pair(views(resp.error@)) ==> r is Err
                && r->Err_0 is UnexpectedResponse && r->Err_0->UnexpectedResponse_0@ == resp.error@[0]@,
            resp.error@.len() == 0 && resp.result is Some ==> r == Ok::<T, DataError>(resp.result->0),
            resp.error@.len() == 0 && resp.result is None ==> r is Err
                && r->Err_0 is UnexpectedResponse
                && r->Err_0->UnexpectedResponse_0@ == "Kraken response has no result"@,
    {
        if resp.error.len() > 0 {
            let mut i: usize = 0;
            while i < resp.error.len()
                invariant
                    i <= resp.error.len(),
                    forall|j: int| 0 <= j < i ==> !contains_seq(#[trigger] views(resp.error@)[j], "Unknown asset pair"@),
                decreases resp.error.len() - i,
            {
                if contains_str(resp.error[i].as_str(), "Unknown asset pair") {
                    assert(contains_seq(views(resp.error@)[i as int], "Unknown asset pair"@));
                    assert(mentions_unknown_pair(views(resp.error@)));
                    return Err(DataError::SymbolNotFound(owned(symbol)));
                }
                i = i + 1;
            }
            return Err(DataError::UnexpectedResponse(owned(resp.error[0].as_str())));
        }
        match resp.result {
            Some(v) => Ok(v),
            None => Err(DataError::UnexpectedResponse(owned("Kraken response has no result"))),
        }
    }

    /// The instrument described by a pair entry. Pairs whose two legs are both
    /// fiat currencies are forex, every other pair is crypto.
    pub fn instrument_from_pair(info: &PairInfo) -> (r: Result<Instrument, DataError>)
        ensures
            r is Ok,
            describes_pair(r->Ok_0, *info),
    {
        let (b, q) = match &info.wsname {
            Some(ws) => {
                let cs = chars_of(ws.as_str());
                let k = find_char_exec(&cs, '/');
                proof {
                    lemma_find_char(cs@, '/');
                }
                if k < cs.len() {
                    (string_of_range(&cs, 0, k), string_of_range(&cs, k + 1, cs.len()))
                } else {
                    (string_of_range(&cs, 0, cs.len()), info.quote.clone())
                }
            },
            None => (info.base.clone(), info.quote.clone()),
        };
        proof {
            if let Some(ws) = &info.wsname {
                assert(ws@.subrange(0, ws@.len() as int) =~= ws@);
            }
        }
        let base = Kraken::normalize_ticker(b.as_str());
        let quote = Kraken::normalize_ticker(q.as_str());
        let some_base = Some(base.clone());
        let symbol = canonical_symbol(info.altname.as_str(), &some_base, &quote);
        let instrument_type = if Currency::parse(base.as_str()).is_some() && Currency::parse(
            quote.as_str(),
        ).is_some() {
            InstrumentType::Forex
        } else {
            InstrumentType::Crypto
        };
        Ok(
            Instrument {
                symbol: symbol.clone(),
                name: symbol,
                base: Some(base),
                quote,
                instrument_type,
                exchange: owned("KRAKEN"),
                provider: Provider::Kraken,
            },
        )
    }

    /// The instruments of an asset-pair listing: online pairs of the requested
    /// type, in listing order, at most `limit`.
    pub fn instruments_from_pairs(
        pairs: &Vec<PairInfo>,
        instrument_type: InstrumentType,
        limit: usize,
    ) -> (r: Vec<Instrument>)
        ensures
            r.len() == if listed_pairs(pairs@, instrument_type).len() < limit {
                listed_pairs(pairs@, instrument_type).len()
            } else {
                limit as nat
            },
            forall|i: int| 0 <= i < r.len() ==> describes_pair(
                #[trigger] r@[i],
                pairs@[listed_pairs(pairs@, instrument_type)[i]],
            ),
    {
        let mut out: Vec<Instrument> = Vec::new();
        let mut i: usize = 0;
        while i < pairs.len() && out.len() < limit
            invariant
                i <= pairs.len(),
                out.len() <= limit,
                out.len() == listed_pairs(pairs@.subrange(0, i as int), instrument_type).len(),
                forall|j: int| 0 <= j < out.len() ==> describes_pair(
                    #[trigger] out@[j],
                    pairs@[listed_pairs(pairs@.subrange(0, i as int), instrument_type)[j]],
                ),
            decreases pairs.len() - i,
        {
            let ghost pre = pairs@.subrange(0, i as int);
            let ghost nxt = pairs@.subrange(0, i + 1);
            assert(nxt.drop_last() =~= pre);
            let info = &pairs[i];
            if str_eq(info.status.as_str(), "online") {
                let inst = Kraken::instrument_from_pair(info).unwrap();
                if inst.instrument_type == instrument_type {
                    out.push(inst);
                }
            }
            i = i + 1;
        }
        proof {
            lemma_listed_prefix(pairs@, instrument_type, i as int);
        }
        out
    }

    /// The next `since` cursor of a paged bar download, or `None` when the download is complete.
    ///
    /// Kraken returns bars from `since` onwards; the next page starts one interval
    /// after the last bar received. The download stops when the cursor would not
    /// advance, when the last bar reached `end`, or when a page added no bar and
    /// the cursor passed `end`.
    pub fn next_cursor(cursor: u64, last_time: u64, end: u64, interval: Interval, added: bool) -> (r: Option<u64>)
        requires
            last_time + interval_seconds(interval) <= u64::MAX,
        ensures
            r == kraken_next_cursor_spec(cursor as nat, last_time as nat, end as nat, interval_seconds(interval), added),
            r matches Some(c) ==> c > cursor,
    {
        let new_cursor = last_time + interval.seconds();
        if new_cursor <= cursor || last_time >= end {
            None
        } else if !added && new_cursor >= end {
            None
        } else {
            Some(new_cursor)
        }
    }
}

/// The listing of a prefix is a prefix of the listing.
pub proof fn lemma_listed_prefix(pairs: Seq<PairInfo>, it: InstrumentType, n: int)
    requires
        0 <= n <= pairs.len(),
    ensures
        listed_pairs(pairs.subrange(0, n), it).len() <= listed_pairs(pairs, it).len(),
        forall|j: int| 0 <= j < listed_pairs(pairs.subrange(0, n), it).len() ==> listed_pairs(pairs.subrange(0, n), it)[j] == listed_pairs(pairs, it)[j],
        n == pairs.len() ==> listed_pairs(pairs.subrange(0, n), it) == listed_pairs(pairs, it),
    decreases pairs.len() - n,
{
    if n == pairs.len() {
        assert(pairs.subrange(0, n) =~= pairs);
    } else {
        lemma_listed_prefix(pairs, it, n + 1);
        assert(pairs.subrange(0, n + 1).drop_last() =~= pairs.subrange(0, n));
    }
}

/// The next cursor of a Kraken paged download.
pub open spec fn kraken_next_cursor_spec(cursor: nat, last_time: nat, end: nat, secs: nat, added: bool) -> Option<u64> {
    let new_cursor = last_time + secs;
    if new_cursor <= cursor || last_time >= end {
        None
    } else if !added && new_cursor >= end {
        None
    } else {
        Some(new_cursor as u64)
    }
}

/// Renaming a canonical ticker to Kraken's name and back gives the ticker
/// again, except for `XBT` and `XDG`, which are Kraken's own names.
pub proof fn law_kraken_ticker_round_trip(t: Seq<char>)
    requires
        t != "XBT"@,
        t != "XDG"@,
    ensures
        normalize_ticker_spec(to_kraken_ticker(t)) == t,
{
    reveal_strlit("BTC");
    reveal_strlit("XBT");
    reveal_strlit("DOGE");
    reveal_strlit("XDG");
    assert("XBT"@[1] != "BTC"@[1]);
    assert("XBT"@[1] != "XDG"@[1]);
    assert("XDG"@.len() != "DOGE"@.len());
    assert("XDG"@[0] != "BTC"@[0]);
    assert("DOGE"@.len() != "BTC"@.len());
}

/// Both legs of a listed Kraken pair come out canonical: each is the pair's
/// leg with Kraken's own tickers renamed (`XBT` to `BTC`, `XDG` to `DOGE`) and
/// every other ticker kept, so no Kraken instrument has `XBT` or `XDG` as its
/// base or quote.
pub proof fn law_pair_legs_are_canonical(inst: Instrument, info: PairInfo)
    requires
        describes_pair(inst, info),
    ensures
        ({
            let (lb, lq) = pair_legs(crate::symbols::opt_view(info.wsname), info.base@, info.quote@);
            &&& inst.quote@ == (if lq == "XBT"@ { "BTC"@ } else if lq == "XDG"@ { "DOGE"@ } else { lq })
            &&& inst.base is Some
            &&& inst.base->0@ == (if lb == "XBT"@ { "BTC"@ } else if lb == "XDG"@ { "DOGE"@ } else { lb })
        }),
        inst.quote@ != "XBT"@,
        inst.quote@ != "XDG"@,
        inst.base->0@ != "XBT"@,
        inst.base->0@ != "XDG"@,
{
    reveal_strlit("BTC");
    reveal_strlit("XBT");
    reveal_strlit("DOGE");
    reveal_strlit("XDG");
    assert("XBT"@[0] != "BTC"@[0]);
    assert("XDG"@.len() != "DOGE"@.len());
    assert("XBT"@[1] != "XDG"@[1]);
}

} // verus!
