//! Currency-conversion legs: which instruments price a symbol in the
//! portfolio's base currency, directly or through an intermediate currency.
//!
//! Looking instruments and their histories up is the caller's work; these
//! functions decide which lookups to make and which results to keep.

use vstd::prelude::*;
use crate::currency::{currency_named, pair_named, Currency, ForexPair};
use crate::models::{DataError, Instrument, InstrumentType, Interval};
use crate::coinbase::{min_max, seq_max};
use crate::download::InstrumentProfile;
use crate::text::{concat, owned, str_eq, views};
use indexmap::IndexMap;
use itertools::Itertools;

verus! {

/// How conversion legs are chosen when a direct pair exists.
#[derive(Debug, Clone, Copy, PartialEq, Eq, Structural)]
pub enum TriangulationStrategy {
    /// Use the direct pair whenever it exists.
    Direct,
    /// Use whichever of the direct pair and the triangulated path has data
    /// from the earlier date.
    Earliest,
}

/// Whether an instrument is already priced in `base`: its base or its quote
/// currency is `base`.
pub open spec fn priced_in(instr: Instrument, base: Seq<char>) -> bool {
    (instr.base matches Some(b) && b@ == base) || instr.quote@ == base
}

/// Whether an instrument is already priced in `base`.
pub fn is_priced_in(instr: &Instrument, base: &str) -> (r: bool)
    ensures
        r == priced_in(*instr, base@),
{
    let by_base = match &instr.base {
        Some(b) => str_eq(b.as_str(), base),
        None => false,
    };
    by_base || str_eq(instr.quote.as_str(), base)
}

/// The intermediate currencies and instrument type used to convert a quote
/// currency: a fiat quote goes through `fiat` (on both sides) as forex; any
/// other quote goes from `crypto` to `crypto_pegged` as crypto.
pub open spec fn route_spec(quote: Seq<char>, fiat: Seq<char>, crypto: Seq<char>, crypto_pegged: Seq<char>) -> (
    Seq<char>,
    Seq<char>,
    InstrumentType,
) {
    if currency_named(quote) is Some {
        (fiat, fiat, InstrumentType::Forex)
    } else {
        (crypto, crypto_pegged, InstrumentType::Crypto)
    }
}

/// The intermediate currencies (the one the quote converts to, and the one
/// that converts to the base) and the instrument type for a quote currency.
pub fn conversion_route(quote: &str, fiat: &str, crypto: &str, crypto_pegged: &str) -> (r: (String, String, InstrumentType))
    ensures
        (r.0@, r.1@, r.2) == route_spec(quote@, fiat@, crypto@, crypto_pegged@),
{
    if Currency::parse(quote).is_some() {
        (owned(fiat), owned(fiat), InstrumentType::Forex)
    } else {
        (owned(crypto), owned(crypto_pegged), InstrumentType::Crypto)
    }
}

/// A pair to look up in either order: `base-quote` or `quote-base`.
#[derive(Debug, Clone, PartialEq, Eq)]
pub struct PairRequest {
    pub base: String,
    pub quote: String,
    pub instrument_type: InstrumentType,
}

/// The instrument type of the leg from `mid` to `base`: forex when both are
/// fiat currencies, else the route's type.
pub open spec fn second_leg_type(mid: Seq<char>, base: Seq<char>, it: InstrumentType) -> InstrumentType {
    if currency_named(mid) is Some && currency_named(base) is Some {
        InstrumentType::Forex
    } else {
        it
    }
}

/// The legs of a two-step conversion `quote -> mid_from` and
/// `mid_to -> base`, leaving out a leg whose two currencies coincide.
pub open spec fn triangulation_legs(
    quote: Seq<char>,
    mid_from: Seq<char>,
    mid_to: Seq<char>,
    base: Seq<char>,
    it: InstrumentType,
) -> Seq<(Seq<char>, Seq<char>, InstrumentType)> {
    let first: Seq<(Seq<char>, Seq<char>, InstrumentType)> = if quote != mid_from {
        seq![(quote, mid_from, it)]
    } else {
        seq![]
    };
    let second: Seq<(Seq<char>, Seq<char>, InstrumentType)> = if mid_to != base {
        seq![(mid_to, base, second_leg_type(mid_to, base, it))]
    } else {
        seq![]
    };
    first + second
}

/// The view of a list of pair requests.
pub open spec fn request_views(v: Seq<PairRequest>) -> Seq<(Seq<char>, Seq<char>, InstrumentType)> {
    v.map_values(|r: PairRequest| (r.base@, r.quote@, r.instrument_type))
}

/// The pairs to look up to convert `quote` to `base` through `mid_from` and
/// `mid_to`, in order; when no leg is needed there is no conversion path.
pub fn triangulation_plan(quote: &str, mid_from: &str, mid_to: &str, base: &str, it: InstrumentType) -> (r: Result<
    Vec<PairRequest>,
    DataError,
>)
    ensures
        triangulation_legs(quote@, mid_from@, mid_to@, base@, it).len() > 0 ==> r is Ok && request_views(r->Ok_0@)
            == triangulation_legs(quote@, mid_from@, mid_to@, base@, it),
        triangulation_legs(quote@, mid_from@, mid_to@, base@, it).len() == 0 ==> r is Err && r->Err_0 is NoConversionPath
            && r->Err_0->NoConversionPath_from@ == quote@ && r->Err_0->NoConversionPath_to@ == base@,
{
    let mut legs: Vec<PairRequest> = Vec::new();
    if !str_eq(quote, mid_from) {
        legs.push(PairRequest { base: owned(quote), quote: owned(mid_from), instrument_type: it });
    }
    if !str_eq(mid_to, base) {
        let leg_it = if Currency::parse(mid_to).is_some() && Currency::parse(base).is_some() {
            InstrumentType::Forex
        } else {
            it
        };
        legs.push(PairRequest { base: owned(mid_to), quote: owned(base), instrument_type: leg_it });
    }
    proof {
        let ghost t = triangulation_legs(quote@, mid_from@, mid_to@, base@, it);
        assert(request_views(legs@) =~= t);
    }
    if legs.len() == 0 {
        return Err(DataError::NoConversionPath { from: owned(quote), to: owned(base) });
    }
    Ok(legs)
}

/// Which ordering of a pair to use.
#[derive(Debug, Clone, Copy, PartialEq, Eq, Structural)]
pub enum PairPick {
    /// The `base-quote` instrument.
    Direct,
    /// The `quote-base` instrument.
    Inverse,
    /// Both exist and neither is preferred: use the one with the longer history.
    LongestHistory,
    /// Neither exists.
    NotFound,
}

/// Which ordering of a pair to use, given which orderings exist: the only one
/// that exists, or, when both do, the one whose six-letter name is a known
/// forex pair when exactly one of them is.
pub open spec fn pick_spec(base: Seq<char>, quote: Seq<char>, direct_found: bool, inverse_found: bool) -> PairPick {
    if direct_found && inverse_found {
        let bq = pair_named(base + quote) is Some;
        let qb = pair_named(quote + base) is Some;
        if bq && !qb {
            PairPick::Direct
        } else if qb && !bq {
            PairPick::Inverse
        } else {
            PairPick::LongestHistory
        }
    } else if direct_found {
        PairPick::Direct
    } else if inverse_found {
        PairPick::Inverse
    } else {
        PairPick::NotFound
    }
}

/// Which of `base-quote` and `quote-base` to use, given which were found.
pub fn pick_ordering(base: &str, quote: &str, direct_found: bool, inverse_found: bool) -> (r: PairPick)
    ensures
        r == pick_spec(base@, quote@, direct_found, inverse_found),
{
    if direct_found && inverse_found {
        let bq_name = concat(base, quote);
        let qb_name = concat(quote, base);
        let bq = ForexPair::parse(bq_name.as_str()).is_some();
        let qb = ForexPair::parse(qb_name.as_str()).is_some();
        if bq && !qb {
            PairPick::Direct
        } else if qb && !bq {
            PairPick::Inverse
        } else {
            PairPick::LongestHistory
        }
    } else if direct_found {
        PairPick::Direct
    } else if inverse_found {
        PairPick::Inverse
    } else {
        PairPick::NotFound
    }
}

/// The earliest of the per-interval start timestamps, or `u64::MAX` when there are none.
pub open spec fn min_start(s: Seq<(Interval, u64)>) -> u64
    decreases s.len(),
{
    if s.len() == 0 {
        u64::MAX
    } else {
        let m = min_start(s.drop_last());
        if s.last().1 < m { s.last().1 } else { m }
    }
}

/// The earliest of the per-interval start timestamps, or `u64::MAX` when there are none.
pub fn earliest_start(starts: &Vec<(Interval, u64)>) -> (r: u64)
    ensures
        r == min_start(starts@),
{
    let mut m: u64 = u64::MAX;
    let mut i: usize = 0;
    while i < starts.len()
        invariant
            i <= starts.len(),
            m == min_start(starts@.subrange(0, i as int)),
        decreases starts.len() - i,
    {
        assert(starts@.subrange(0, i + 1).drop_last() =~= starts@.subrange(0, i as int));
        if starts[i].1 < m {
            m = starts[i].1;
        }
        i = i + 1;
    }
    assert(starts@.subrange(0, starts.len() as int) =~= starts@);
    m
}

/// Whether the direct ordering has at least as long a history as the inverse
/// one: its earliest start is no later.
pub fn direct_history_is_longer(direct: &Vec<(Interval, u64)>, inverse: &Vec<(Interval, u64)>) -> (r: bool)
    ensures
        r == (min_start(direct@) <= min_start(inverse@)),
{
    earliest_start(direct) <= earliest_start(inverse)
}

/// Which conversion to use for a quote currency.
#[derive(Debug, Clone, Copy, PartialEq, Eq, Structural)]
pub enum LegsPick {
    /// The direct pair alone.
    Direct,
    /// The triangulated legs.
    Triangulated,
    /// Both exist: use the one whose data starts first.
    EarliestStart,
    /// Neither exists: report why the direct pair was not found.
    DirectError,
    /// The direct pair does not exist: report why triangulating failed.
    TriangulationError,
}

/// Whether the triangulated path is looked up: always when comparing start
/// dates, else only when the direct pair does not exist.
pub open spec fn triangulates(strategy: TriangulationStrategy, direct_found: bool) -> bool {
    strategy is Earliest || !direct_found
}

/// Whether the triangulated path has to be looked up.
pub fn should_triangulate(strategy: TriangulationStrategy, direct_found: bool) -> (r: bool)
    ensures
        r == triangulates(strategy, direct_found),
{
    match strategy {
        TriangulationStrategy::Earliest => true,
        TriangulationStrategy::Direct => !direct_found,
    }
}

/// Which conversion to use, given whether the direct pair and (when it was
/// looked up) the triangulated path were found.
pub open spec fn legs_pick_spec(strategy: TriangulationStrategy, direct_found: bool, triangulated_found: bool) -> LegsPick {
    match strategy {
        TriangulationStrategy::Direct => if direct_found {
            LegsPick::Direct
        } else if triangulated_found {
            LegsPick::Triangulated
        } else {
            LegsPick::TriangulationError
        },
        TriangulationStrategy::Earliest => if direct_found && triangulated_found {
            LegsPick::EarliestStart
        } else if direct_found {
            LegsPick::Direct
        } else if triangulated_found {
            LegsPick::Triangulated
        } else {
            LegsPick::DirectError
        },
    }
}

/// Which conversion to use for a quote currency.
pub fn pick_legs(strategy: TriangulationStrategy, direct_found: bool, triangulated_found: bool) -> (r: LegsPick)
    ensures
        r == legs_pick_spec(strategy, direct_found, triangulated_found),
{
    match strategy {
        TriangulationStrategy::Direct => {
            if direct_found {
                LegsPick::Direct
            } else if triangulated_found {
                LegsPick::Triangulated
            } else {
                LegsPick::TriangulationError
            }
        },
        TriangulationStrategy::Earliest => {
            if direct_found && triangulated_found {
                LegsPick::EarliestStart
            } else if direct_found {
                LegsPick::Direct
            } else if triangulated_found {
                LegsPick::Triangulated
            } else {
                LegsPick::DirectError
            }
        },
    }
}

/// All per-interval start timestamps of a list of legs, in order.
pub open spec fn start_values(legs: Seq<Vec<(Interval, u64)>>) -> Seq<u64>
    decreases legs.len(),
{
    if legs.len() == 0 {
        seq![]
    } else {
        start_values(legs.drop_last()) + legs.last()@.map_values(|p: (Interval, u64)| p.1)
    }
}

/// When a triangulated path has data: from the latest of its legs' start
/// timestamps (`u64::MAX` when there are none).
pub open spec fn path_start(legs: Seq<Vec<(Interval, u64)>>) -> u64 {
    if start_values(legs).len() == 0 { u64::MAX } else { seq_max(start_values(legs)) }
}

/// Whether the direct pair's data starts no later than the triangulated path's.
pub fn direct_starts_first(direct: &Vec<(Interval, u64)>, legs: &Vec<Vec<(Interval, u64)>>) -> (r: bool)
    ensures
        r == (min_start(direct@) <= path_start(legs@)),
{
    let mut values: Vec<u64> = Vec::new();
    let mut i: usize = 0;
    while i < legs.len()
        invariant
            i <= legs.len(),
            values@ == start_values(legs@.subrange(0, i as int)),
        decreases legs.len() - i,
    {
        let leg = &legs[i];
        let mut j: usize = 0;
        while j < leg.len()
            invariant
                i < legs.len(),
                leg == &legs[i as int],
                j <= leg.len(),
                values@ == start_values(legs@.subrange(0, i as int)) + leg@.subrange(0, j as int).map_values(
                    |p: (Interval, u64)| p.1,
                ),
            decreases leg.len() - j,
        {
            values.push(leg[j].1);
            assert(leg@.subrange(0, j + 1).map_values(|p: (Interval, u64)| p.1) =~= leg@.subrange(0, j as int).map_values(
                |p: (Interval, u64)| p.1,
            ).push(leg@[j as int].1));
            j = j + 1;
        }
        assert(leg@.subrange(0, j as int) =~= leg@);
        assert(legs@.subrange(0, i + 1).drop_last() =~= legs@.subrange(0, i as int));
        i = i + 1;
    }
    assert(legs@.subrange(0, legs.len() as int) =~= legs@);
    let path = if values.len() == 0 {
        u64::MAX
    } else {
        min_max(&values).1
    };
    earliest_start(direct) <= path
}

/// Itertools' `unique`: the items in order, each kept at its first occurrence.
pub open spec fn first_occurrences(s: Seq<Seq<char>>) -> Seq<Seq<char>>
    decreases s.len(),
{
    if s.len() == 0 {
        seq![]
    } else {
        let p = first_occurrences(s.drop_last());
        if p.contains(s.last()) { p } else { p.push(s.last()) }
    }
}

/// `Itertools::unique` over strings. Its documentation states that the
/// adaptor is stable and keeps the first of each set of equal items; strings
/// are equal exactly when their characters are.
#[verifier::external_body]
fn unique_strings(items: Vec<String>) -> (r: Vec<String>)
    ensures
        views(r@) == first_occurrences(views(items@)),
{
    items.into_iter().unique().collect()
}

/// The quote currencies of the instruments not priced in `base`, in order.
pub open spec fn unpriced_quotes(instruments: Seq<Instrument>, base: Seq<char>) -> Seq<Seq<char>>
    decreases instruments.len(),
{
    if instruments.len() == 0 {
        seq![]
    } else {
        let p = unpriced_quotes(instruments.drop_last(), base);
        if priced_in(instruments.last(), base) { p } else { p.push(instruments.last().quote@) }
    }
}

/// The distinct quote currencies that need conversion legs, in order of first
/// appearance.
pub fn conversion_quotes(instruments: &Vec<Instrument>, base: &str) -> (r: Vec<String>)
    ensures
        views(r@) == first_occurrences(unpriced_quotes(instruments@, base@)),
{
    let mut quotes: Vec<String> = Vec::new();
    let mut i: usize = 0;
    while i < instruments.len()
        invariant
            i <= instruments.len(),
            views(quotes@) == unpriced_quotes(instruments@.subrange(0, i as int), base@),
        decreases instruments.len() - i,
    {
        assert(instruments@.subrange(0, i + 1).drop_last() =~= instruments@.subrange(0, i as int));
        if !is_priced_in(&instruments[i], base) {
            quotes.push(instruments[i].quote.clone());
            assert(views(quotes@) =~= unpriced_quotes(instruments@.subrange(0, i + 1), base@));
        }
        i = i + 1;
    }
    assert(instruments@.subrange(0, instruments.len() as int) =~= instruments@);
    unique_strings(quotes)
}

/// The legs resolved for a quote currency: those of its first entry.
pub open spec fn resolved_for(resolved: Seq<(String, Vec<Instrument>)>, quote: Seq<char>) -> Option<Seq<Instrument>>
    decreases resolved.len(),
{
    if resolved.len() == 0 {
        None
    } else if resolved[0].0@ == quote {
        Some(resolved[0].1@)
    } else {
        resolved_for(resolved.drop_first(), quote)
    }
}

/// The symbols of the conversion legs of an instrument: none when it is
/// priced in `base` or its quote could not be converted.
pub open spec fn leg_symbols(instr: Instrument, base: Seq<char>, resolved: Seq<(String, Vec<Instrument>)>) -> Seq<Seq<char>> {
    if priced_in(instr, base) {
        seq![]
    } else {
        match resolved_for(resolved, instr.quote@) {
            Some(legs) => legs.map_values(|l: Instrument| l.symbol@),
            None => seq![],
        }
    }
}

/// The index of the first entry for a quote currency.
fn find_resolved(resolved: &Vec<(String, Vec<Instrument>)>, quote: &str) -> (r: Option<usize>)
    ensures
        match r {
            Some(j) => j < resolved@.len() && resolved_for(resolved@, quote@) == Some(resolved@[j as int].1@),
            None => resolved_for(resolved@, quote@) is None,
        },
{
    let mut j: usize = 0;
    assert(resolved@.subrange(0, resolved@.len() as int) =~= resolved@);
    while j < resolved.len()
        invariant
            j <= resolved.len(),
            resolved_for(resolved@, quote@) == resolved_for(resolved@.subrange(j as int, resolved@.len() as int), quote@),
        decreases resolved.len() - j,
    {
        assert(resolved@.subrange(j as int, resolved@.len() as int).drop_first() =~= resolved@.subrange(
            j + 1,
            resolved@.len() as int,
        ));
        if str_eq(resolved[j].0.as_str(), quote) {
            return Some(j);
        }
        j = j + 1;
    }
    None
}

/// The first entry for `quote` is at `j`.
proof fn lemma_resolved_first(resolved: Seq<(String, Vec<Instrument>)>, quote: Seq<char>, j: int)
    requires
        0 <= j < resolved.len(),
        resolved[j].0@ == quote,
        forall|m: int| 0 <= m < j ==> (#[trigger] resolved[m]).0@ != quote,
    ensures
        resolved_for(resolved, quote) == Some(resolved[j].1@),
    decreases j,
{
    if j > 0 {
        lemma_resolved_first(resolved.drop_first(), quote, j - 1);
    }
}

/// No entry is for `quote`.
proof fn lemma_resolved_none(resolved: Seq<(String, Vec<Instrument>)>, quote: Seq<char>)
    requires
        forall|m: int| 0 <= m < resolved.len() ==> (#[trigger] resolved[m]).0@ != quote,
    ensures
        resolved_for(resolved, quote) is None,
    decreases resolved.len(),
{
    if resolved.len() > 0 {
        lemma_resolved_none(resolved.drop_first(), quote);
    }
}

/// Which instruments get conversion legs: one whose base or quote already is
/// the base currency gets none; any other gets the symbols, in order, of the
/// legs resolved for its quote currency (the first entry for it), and none
/// when its quote could not be resolved.
pub proof fn law_legs_only_for_foreign_quotes(
    instr: Instrument,
    base: Seq<char>,
    resolved: Seq<(String, Vec<Instrument>)>,
    j: int,
)
    ensures
        (instr.base matches Some(b) && b@ == base) ==> leg_symbols(instr, base, resolved).len() == 0,
        instr.quote@ == base ==> leg_symbols(instr, base, resolved).len() == 0,
        ({
            let foreign = !(instr.base matches Some(b) && b@ == base) && instr.quote@ != base;
            &&& (foreign && 0 <= j < resolved.len() && resolved[j].0@ == instr.quote@
                && forall|m: int| 0 <= m < j ==> (#[trigger] resolved[m]).0@ != instr.quote@) ==> {
                &&& leg_symbols(instr, base, resolved).len() == resolved[j].1@.len()
                &&& forall|i: int| 0 <= i < resolved[j].1@.len() ==> #[trigger] leg_symbols(instr, base, resolved)[i]
                    == resolved[j].1@[i].symbol@
            }
            &&& (foreign && forall|m: int| 0 <= m < resolved.len() ==> (#[trigger] resolved[m]).0@ != instr.quote@)
                ==> leg_symbols(instr, base, resolved).len() == 0
        }),
{
    if 0 <= j < resolved.len() && resolved[j].0@ == instr.quote@ && forall|m: int| 0 <= m < j ==> (#[trigger] resolved[m]).0@ != instr.quote@ {
        lemma_resolved_first(resolved, instr.quote@, j);
    }
    if forall|m: int| 0 <= m < resolved.len() ==> (#[trigger] resolved[m]).0@ != instr.quote@ {
        lemma_resolved_none(resolved, instr.quote@);
    }
}

/// The symbols of each instrument's conversion legs, given the legs resolved
/// for each convertible quote currency.
pub fn instrument_legs(instruments: &Vec<Instrument>, base: &str, resolved: &Vec<(String, Vec<Instrument>)>) -> (r: Vec<Vec<String>>)
    ensures
        r@.len() == instruments@.len(),
        forall|i: int| 0 <= i < r@.len() ==> views(#[trigger] r@[i]@) == leg_symbols(instruments@[i], base@, resolved@),
{
    let mut out: Vec<Vec<String>> = Vec::new();
    let mut i: usize = 0;
    while i < instruments.len()
        invariant
            i <= instruments.len(),
            out@.len() == i,
            forall|k: int| 0 <= k < i ==> views(#[trigger] out@[k]@) == leg_symbols(instruments@[k], base@, resolved@),
        decreases instruments.len() - i,
    {
        let instr = &instruments[i];
        let mut symbols: Vec<String> = Vec::new();
        if !is_priced_in(instr, base) {
            match find_resolved(resolved, instr.quote.as_str()) {
                Some(j) => {
                    let legs = &resolved[j].1;
                    let mut k: usize = 0;
                    while k < legs.len()
                        invariant
                            k <= legs.len(),
                            views(symbols@) == legs@.subrange(0, k as int).map_values(|l: Instrument| l.symbol@),
                        decreases legs.len() - k,
                    {
                        let sym = legs[k].symbol.clone();
                        let ghost old_symbols = symbols@;
                        symbols.push(sym);
                        assert(sym@ == legs@[k as int].symbol@);
                        assert(views(symbols@) =~= views(old_symbols).push(sym@));
                        assert(legs@.subrange(0, k + 1) =~= legs@.subrange(0, k as int).push(legs@[k as int]));
                        assert(views(symbols@) =~= legs@.subrange(0, k + 1).map_values(|l: Instrument| l.symbol@));
                        k = k + 1;
                    }
                    assert(legs@.subrange(0, k as int) =~= legs@);
                },
                None => {},
            }
        }
        assert(views(symbols@) =~= leg_symbols(instruments@[i as int], base@, resolved@));
        out.push(symbols);
        i = i + 1;
    }
    out
}

#[verifier::external_type_specification]
#[verifier::external_body]
#[verifier::reject_recursive_types(K)]
#[verifier::reject_recursive_types(V)]
#[verifier::reject_recursive_types(S)]
pub struct ExIndexMap<K, V, S>(IndexMap<K, V, S>);

/// The entries of a map from symbols to instruments, in insertion order, each
/// key by its characters.
pub uninterp spec fn leg_entries(m: IndexMap<String, Instrument>) -> Seq<(Seq<char>, Instrument)>;

/// Whether an entry has key `key`.
pub open spec fn has_key(entries: Seq<(Seq<char>, Instrument)>, key: Seq<char>) -> bool {
    exists|i: int| 0 <= i < entries.len() && (#[trigger] entries[i]).0 == key
}

/// `IndexMap::new`: a map without entries.
#[verifier::external_body]
fn new_leg_map() -> (m: IndexMap<String, Instrument>)
    ensures
        leg_entries(m) == Seq::<(Seq<char>, Instrument)>::empty(),
{
    IndexMap::new()
}

/// `IndexMap::entry(key).or_insert(value)`: an existing entry for the key is
/// left as it is; otherwise the entry is appended after the others. Keys are
/// equal exactly when their characters are.
#[verifier::external_body]
fn insert_if_absent(m: &mut IndexMap<String, Instrument>, key: String, value: Instrument)
    ensures
        has_key(leg_entries(*old(m)), key@) ==> leg_entries(*final(m)) == leg_entries(*old(m)),
        !has_key(leg_entries(*old(m)), key@) ==> leg_entries(*final(m)) == leg_entries(*old(m)).push((key@, value)),
{
    m.entry(key).or_insert(value);
}

/// `IndexMap::into_values`: the values, in the order of their entries.
#[verifier::external_body]
fn into_leg_values(m: IndexMap<String, Instrument>) -> (v: Vec<Instrument>)
    ensures
        v@ == leg_entries(m).map_values(|e: (Seq<char>, Instrument)| e.1),
{
    m.into_values().collect()
}

/// Whether an instrument in `s` has symbol `sym`.
pub open spec fn has_symbol(s: Seq<Instrument>, sym: Seq<char>) -> bool {
    exists|i: int| 0 <= i < s.len() && (#[trigger] s[i]).symbol@ == sym
}

/// The instruments in order, each symbol kept at its first occurrence.
pub open spec fn first_by_symbol(s: Seq<Instrument>) -> Seq<Instrument>
    decreases s.len(),
{
    if s.len() == 0 {
        seq![]
    } else {
        let p = first_by_symbol(s.drop_last());
        if has_symbol(p, s.last().symbol@) { p } else { p.push(s.last()) }
    }
}

/// All resolved legs, quote by quote, in order.
pub open spec fn all_legs(resolved: Seq<(String, Vec<Instrument>)>) -> Seq<Instrument>
    decreases resolved.len(),
{
    if resolved.len() == 0 {
        seq![]
    } else {
        all_legs(resolved.drop_last()) + resolved.last().1@
    }
}

pub open spec fn keyed(s: Seq<Instrument>) -> Seq<(Seq<char>, Instrument)> {
    s.map_values(|x: Instrument| (x.symbol@, x))
}

/// The distinct conversion-leg instruments of all quote currencies, each
/// symbol once, in the order first met.
pub fn distinct_legs(resolved: &Vec<(String, Vec<Instrument>)>) -> (r: Vec<Instrument>)
    ensures
        r@ == first_by_symbol(all_legs(resolved@)),
{
    let mut map = new_leg_map();
    let mut i: usize = 0;
    assert(keyed(first_by_symbol(all_legs(resolved@.subrange(0, 0)))) =~= leg_entries(map));
    while i < resolved.len()
        invariant
            i <= resolved.len(),
            leg_entries(map) == keyed(first_by_symbol(all_legs(resolved@.subrange(0, i as int)))),
        decreases resolved.len() - i,
    {
        let legs = &resolved[i].1;
        let ghost before = all_legs(resolved@.subrange(0, i as int));
        let mut j: usize = 0;
        assert(before + legs@.subrange(0, 0) =~= before);
        while j < legs.len()
            invariant
                i < resolved.len(),
                legs == &resolved@[i as int].1,
                j <= legs.len(),
                before == all_legs(resolved@.subrange(0, i as int)),
                leg_entries(map) == keyed(first_by_symbol(before + legs@.subrange(0, j as int))),
            decreases legs.len() - j,
        {
            let ghost prefix = before + legs@.subrange(0, j as int);
            let ghost next = before + legs@.subrange(0, j + 1);
            assert(next.drop_last() =~= prefix);
            assert(next.last() == legs@[j as int]);
            let leg = legs[j].duplicate();
            let key = leg.symbol.clone();
            proof {
                let p = first_by_symbol(prefix);
                let e = leg_entries(map);
                if has_symbol(p, key@) {
                    let k = choose|k: int| 0 <= k < p.len() && (#[trigger] p[k]).symbol@ == key@;
                    assert(e[k].0 == key@);
                }
                if has_key(e, key@) {
                    let k = choose|k: int| 0 <= k < e.len() && (#[trigger] e[k]).0 == key@;
                    assert(p[k].symbol@ == key@);
                }
            }
            insert_if_absent(&mut map, key, leg);
            proof {
                assert(leg_entries(map) =~= keyed(first_by_symbol(next)));
            }
            j = j + 1;
        }
        assert(legs@.subrange(0, j as int) =~= legs@);
        assert(resolved@.subrange(0, i + 1).drop_last() =~= resolved@.subrange(0, i as int));
        i = i + 1;
    }
    assert(resolved@.subrange(0, resolved.len() as int) =~= resolved@);
    let r = into_leg_values(map);
    assert(r@ =~= first_by_symbol(all_legs(resolved@)));
    r
}

/// The profiles in order, each symbol kept at its first occurrence.
pub open spec fn first_profiles(s: Seq<InstrumentProfile>) -> Seq<InstrumentProfile>
    decreases s.len(),
{
    if s.len() == 0 {
        seq![]
    } else {
        let p = first_profiles(s.drop_last());
        if (exists|i: int| 0 <= i < p.len() && (#[trigger] p[i]).instrument.symbol@ == s.last().instrument.symbol@) {
            p
        } else {
            p.push(s.last())
        }
    }
}

/// `Itertools::unique_by` keyed by the instrument symbol. Its documentation
/// states that the adaptor is stable and keeps the first item of each set of
/// items with equal keys; symbols are equal exactly when their characters are.
#[verifier::external_body]
fn unique_profiles_by_symbol(items: Vec<InstrumentProfile>) -> (r: Vec<InstrumentProfile>)
    ensures
        r@ == first_profiles(items@),
{
    items.into_iter().unique_by(|p| p.instrument.symbol.clone()).collect()
}

/// The profiles of the requested instruments followed by those of their
/// conversion legs, each symbol once, in the order first met.
pub fn merge_profiles(instrument_profiles: Vec<InstrumentProfile>, leg_profiles: Vec<InstrumentProfile>) -> (r: Vec<
    InstrumentProfile,
>)
    ensures
        r@ == first_profiles(instrument_profiles@ + leg_profiles@),
{
    let mut all = instrument_profiles;
    let mut rest = leg_profiles;
    all.append(&mut rest);
    unique_profiles_by_symbol(all)
}

/// The instruments of the requested profiles, each symbol once, in the order
/// first met.
pub fn requested_instruments(profiles: Vec<InstrumentProfile>) -> (r: Vec<Instrument>)
    ensures
        r@ == first_profiles(profiles@).map_values(|p: InstrumentProfile| p.instrument),
{
    let unique = unique_profiles_by_symbol(profiles);
    let ghost u = unique@;
    let mut out: Vec<Instrument> = Vec::new();
    let mut rest = unique;
    assert(rest@ =~= u.subrange(0, u.len() as int));
    while rest.len() > 0
        invariant
            out@.len() + rest@.len() == u.len(),
            out@ == u.subrange(0, out@.len() as int).map_values(|p: InstrumentProfile| p.instrument),
            rest@ == u.subrange(out@.len() as int, u.len() as int),
        decreases rest.len(),
    {
        let ghost n = out@.len() as int;
        let p = rest.remove(0);
        assert(p == u[n]);
        out.push(p.instrument);
        assert(out@ =~= u.subrange(0, n + 1).map_values(|q: InstrumentProfile| q.instrument));
        assert(rest@ =~= u.subrange(n + 1, u.len() as int));
    }
    assert(u.subrange(0, u.len() as int) =~= u);
    out
}

/// No two profiles share a symbol.
pub open spec fn symbols_distinct(s: Seq<InstrumentProfile>) -> bool {
    forall|i: int, j: int|
        0 <= i < j < s.len() ==> (#[trigger] s[i]).instrument.symbol@ != (#[trigger] s[j]).instrument.symbol@
}

/// The quote currencies needing conversion are distinct, and are exactly the
/// quotes of the instruments not priced in the base currency.
pub proof fn law_conversion_quotes_distinct(s: Seq<Seq<char>>)
    ensures
        first_occurrences(s).no_duplicates(),
        forall|x: Seq<char>| first_occurrences(s).contains(x) <==> s.contains(x),
    decreases s.len(),
{
    if s.len() > 0 {
        law_conversion_quotes_distinct(s.drop_last());
        let p = first_occurrences(s.drop_last());
        let f = first_occurrences(s);
        assert forall|x: Seq<char>| f.contains(x) <==> s.contains(x) by {
            let d = s.drop_last();
            if s.contains(x) {
                let i = choose|i: int| 0 <= i < s.len() && s[i] == x;
                if i < s.len() - 1 {
                    assert(d[i] == x);
                    assert(d.contains(x));
                    assert(p.contains(x));
                    let k = choose|k: int| 0 <= k < p.len() && p[k] == x;
                    assert(f[k] == x);
                } else if p.contains(x) {
                    let k = choose|k: int| 0 <= k < p.len() && p[k] == x;
                    assert(f[k] == x);
                } else {
                    assert(f[p.len() as int] == x);
                }
            }
            if f.contains(x) {
                let k = choose|k: int| 0 <= k < f.len() && f[k] == x;
                if k < p.len() {
                    assert(p[k] == x);
                    assert(p.contains(x));
                    assert(d.contains(x));
                    let i = choose|i: int| 0 <= i < d.len() && d[i] == x;
                    assert(s[i] == x);
                } else {
                    assert(s[s.len() - 1] == x);
                }
            }
        }
        assert(f.no_duplicates()) by {
            if !p.contains(s.last()) {
                assert forall|i: int, j: int| 0 <= i < f.len() && 0 <= j < f.len() && i != j implies f[i] != f[j] by {
                    if i < p.len() && j < p.len() {
                        assert(f[i] == p[i] && f[j] == p[j]);
                    } else if i < p.len() {
                        assert(f[i] == p[i]);
                    } else {
                        assert(f[j] == p[j]);
                    }
                }
            }
        }
    }
}

/// A merged profile list holds each symbol once, every profile handed in has
/// its symbol there, and every profile there was handed in.
pub proof fn law_merged_profiles_distinct(s: Seq<InstrumentProfile>)
    ensures
        symbols_distinct(first_profiles(s)),
        forall|i: int| 0 <= i < s.len() ==> exists|k: int| 0 <= k < first_profiles(s).len()
            && (#[trigger] first_profiles(s)[k]).instrument.symbol@ == (#[trigger] s[i]).instrument.symbol@,
        forall|k: int| 0 <= k < first_profiles(s).len() ==> exists|i: int| 0 <= i < s.len() && (#[trigger] s[i]) == (
        #[trigger] first_profiles(s)[k]),
    decreases s.len(),
{
    if s.len() > 0 {
        let t = s.drop_last();
        law_merged_profiles_distinct(t);
        let p = first_profiles(t);
        let f = first_profiles(s);
        assert forall|i: int| 0 <= i < s.len() implies exists|k: int| 0 <= k < f.len()
            && (#[trigger] f[k]).instrument.symbol@ == (#[trigger] s[i]).instrument.symbol@ by {
            if i < s.len() - 1 {
                assert(t[i] == s[i]);
                let k = choose|k: int| 0 <= k < p.len() && (#[trigger] p[k]).instrument.symbol@ == t[i].instrument.symbol@;
                assert(f[k] == p[k]);
            } else if exists|k: int| 0 <= k < p.len() && (#[trigger] p[k]).instrument.symbol@ == s.last().instrument.symbol@ {
                let k = choose|k: int| 0 <= k < p.len() && (#[trigger] p[k]).instrument.symbol@ == s.last().instrument.symbol@;
                assert(f[k] == p[k]);
            } else {
                assert(f[p.len() as int] == s.last());
            }
        }
        assert forall|k: int| 0 <= k < f.len() implies exists|i: int| 0 <= i < s.len() && (#[trigger] s[i]) == (
        #[trigger] f[k]) by {
            if k < p.len() {
                assert(f[k] == p[k]);
                let i = choose|i: int| 0 <= i < t.len() && (#[trigger] t[i]) == p[k];
                assert(s[i] == t[i]);
            } else {
                assert(s[s.len() - 1] == f[k]);
            }
        }
    }
}

proof fn lemma_first_profiles_len(s: Seq<InstrumentProfile>)
    ensures
        first_profiles(s).len() <= s.len(),
    decreases s.len(),
{
    if s.len() > 0 {
        lemma_first_profiles_len(s.drop_last());
    }
}

/// When the requested instruments' profiles have distinct symbols, they all
/// come first in the merged list, in their order.
pub proof fn law_requested_profiles_first(a: Seq<InstrumentProfile>, b: Seq<InstrumentProfile>)
    requires
        symbols_distinct(a),
    ensures
        first_profiles(a + b).len() >= a.len(),
        first_profiles(a + b).subrange(0, a.len() as int) == a,
    decreases a.len() + b.len(),
{
    if b.len() > 0 {
        law_requested_profiles_first(a, b.drop_last());
        assert((a + b).drop_last() =~= a + b.drop_last());
    } else {
        assert(a + b =~= a);
        if a.len() > 0 {
            let t = a.drop_last();
            assert(symbols_distinct(t));
            law_requested_profiles_first(t, b);
            assert(t + b =~= t);
            let p = first_profiles(t);
            lemma_first_profiles_len(t);
            assert(p =~= t);
            assert forall|i: int| 0 <= i < p.len() implies (#[trigger] p[i]).instrument.symbol@ != a.last().instrument.symbol@ by {
                assert(a[i] == t[i]);
            }
            assert(first_profiles(a) =~= a);
        }
    }
}

/// The distinct conversion legs hold each symbol once.
pub proof fn law_distinct_legs_unique(s: Seq<Instrument>)
    ensures
        forall|i: int, j: int|
            0 <= i < j < first_by_symbol(s).len() ==> (#[trigger] first_by_symbol(s)[i]).symbol@ != (
            #[trigger] first_by_symbol(s)[j]).symbol@,
    decreases s.len(),
{
    if s.len() > 0 {
        law_distinct_legs_unique(s.drop_last());
        let p = first_by_symbol(s.drop_last());
        let f = first_by_symbol(s);
        if !has_symbol(p, s.last().symbol@) {
            assert forall|i: int, j: int| 0 <= i < j < f.len() implies (#[trigger] f[i]).symbol@ != (#[trigger] f[j]).symbol@ by {
                assert(f[i] == p[i]);
                if j < p.len() {
                    assert(f[j] == p[j]);
                } else {
                    assert(f[j] == s.last());
                    if f[i].symbol@ == f[j].symbol@ {
                        assert(p[i].symbol@ == s.last().symbol@);
                    }
                }
            }
        }
    }
}

} // verus!
