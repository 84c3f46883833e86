//! Planning of bulk bar downloads and bookkeeping of their results.
//!
//! The application performs the requests and the database writes; this module
//! decides which ranges to request, which downloaded rows to keep and in which
//! order, and how the outcome is reported.

use vstd::prelude::*;
use crate::models::{
    interval_label, interval_seconds, provider_name, DataError, DownloadResult, Instrument,
    InstrumentType, Interval, Provider,
};
use crate::text::{concat, decimal, is_blank_seq, is_white, owned, str_eq, trim_str, trimmed, views};
use vstd::string::StrSliceExecFns;

verus! {

// ───────────────────────────── download planning ─────────────────────────────

/// The clamped request range and the missing parts of it, for one symbol and interval.
///
/// The provider range `[meta_start, meta_end]` is clamped to the user range. When
/// nothing overlaps, nothing is requested. When storage already covers the range
/// up to one interval at each end, nothing is requested; otherwise the missing
/// head and the missing tail are requested. Without stored data the whole range is.
pub open spec fn plan_ranges(
    meta_start: nat,
    meta_end: nat,
    user_start: Option<u64>,
    user_end: Option<u64>,
    stored: Option<(u64, u64)>,
    secs: nat,
) -> Seq<(nat, nat)> {
    let s = match user_start {
        Some(x) => if x > meta_start { x as nat } else { meta_start },
        None => meta_start,
    };
    let e = match user_end {
        Some(x) => if x < meta_end { x as nat } else { meta_end },
        None => meta_end,
    };
    if s >= e {
        Seq::empty()
    } else {
        match stored {
            Some((lo, hi)) => if lo <= s + secs && hi + secs >= e {
                Seq::empty()
            } else {
                (if s + secs < lo { seq![(s, lo as nat)] } else { Seq::empty() }) + (if e > hi + secs {
                    seq![(hi as nat, e)]
                } else {
                    Seq::empty()
                })
            },
            None => seq![(s, e)],
        }
    }
}

/// One range to download for one symbol at one interval.
#[derive(Debug, Clone, PartialEq, Eq)]
pub struct DownloadTask {
    pub symbol: String,
    pub instrument_type: InstrumentType,
    pub interval: Interval,
    pub start: u64,
    pub end: u64,
}

/// Stored bar coverage of one series, as reported by storage.
#[derive(Debug, Clone, PartialEq, Eq)]
pub struct StoredRange {
    pub symbol: String,
    pub interval: Interval,
    pub provider: Provider,
    pub first_ts: u64,
    pub last_ts: u64,
}

/// The coverage stored for a series, if any (the first matching row).
pub open spec fn stored_lookup(ranges: Seq<StoredRange>, symbol: Seq<char>, iv: Interval, p: Provider) -> Option<(u64, u64)>
    decreases ranges.len(),
{
    if ranges.len() == 0 {
        None
    } else if ranges[0].symbol@ == symbol && ranges[0].interval == iv && ranges[0].provider == p {
        Some((ranges[0].first_ts, ranges[0].last_ts))
    } else {
        stored_lookup(ranges.drop_first(), symbol, iv, p)
    }
}

/// Find the coverage stored for a series.
pub fn find_stored_range(ranges: &Vec<StoredRange>, symbol: &str, interval: Interval, provider: Provider) -> (r: Option<(u64, u64)>)
    ensures
        r == stored_lookup(ranges@, symbol@, interval, provider),
{
    let mut i: usize = 0;
    assert(ranges@.subrange(0, ranges@.len() as int) =~= ranges@);
    while i < ranges.len()
        invariant
            i <= ranges.len(),
            stored_lookup(ranges@, symbol@, interval, provider) == stored_lookup(ranges@.subrange(i as int, ranges@.len() as int), symbol@, interval, provider),
        decreases ranges.len() - i,
    {
        let ghost rest = ranges@.subrange(i as int, ranges@.len() as int);
        assert(rest.drop_first() =~= ranges@.subrange(i + 1, ranges@.len() as int));
        let r = &ranges[i];
        if str_eq(r.symbol.as_str(), symbol) && r.interval == interval && r.provider == provider {
            return Some((r.first_ts, r.last_ts));
        }
        i = i + 1;
    }
    None
}

/// The ranges to request for one symbol at one interval (see [`plan_ranges`]).
pub fn plan_interval(
    meta_start: u64,
    meta_end: u64,
    user_start: Option<u64>,
    user_end: Option<u64>,
    stored: Option<(u64, u64)>,
    interval: Interval,
) -> (r: Vec<(u64, u64)>)
    ensures
        r@.len() == plan_ranges(meta_start as nat, meta_end as nat, user_start, user_end, stored, interval_seconds(interval)).len(),
        forall|i: int| 0 <= i < r@.len() ==> (r@[i].0 as nat, r@[i].1 as nat) == #[trigger] plan_ranges(
            meta_start as nat, meta_end as nat, user_start, user_end, stored, interval_seconds(interval))[i],
        forall|i: int| 0 <= i < r@.len() ==> #[trigger] r@[i].0 < r@[i].1,
{
    let start: u64 = match user_start {
        Some(x) => if x > meta_start { x } else { meta_start },
        None => meta_start,
    };
    let end: u64 = match user_end {
        Some(x) => if x < meta_end { x } else { meta_end },
        None => meta_end,
    };
    let mut out: Vec<(u64, u64)> = Vec::new();
    if start >= end {
        return out;
    }
    let secs = interval.seconds() as u128;
    match stored {
        Some((lo, hi)) => {
            let covers_head = (lo as u128) <= (start as u128) + secs;
            let covers_tail = (hi as u128) + secs >= (end as u128);
            if covers_head && covers_tail {
                return out;
            }
            if (start as u128) + secs < (lo as u128) {
                out.push((start, lo));
            }
            if (end as u128) > (hi as u128) + secs {
                out.push((hi, end));
            }
            proof {
                let p = plan_ranges(meta_start as nat, meta_end as nat, user_start, user_end, stored, interval_seconds(interval));
                let head: Seq<(nat, nat)> = if start + secs < lo { seq![(start as nat, lo as nat)] } else { Seq::empty() };
                let tail: Seq<(nat, nat)> = if end > hi + secs { seq![(hi as nat, end as nat)] } else { Seq::empty() };
                assert(p == head + tail);
            }
        },
        None => {
            out.push((start, end));
        },
    }
    out
}

/// Per interval, the earliest and latest timestamps a provider has data for.
#[derive(Debug, Clone, PartialEq, Eq)]
pub struct InstrumentProfile {
    pub instrument: Instrument,
    /// Per interval, the earliest timestamp with data (Unix seconds).
    pub earliest_ts: Vec<(Interval, u64)>,
    /// Per interval, the most recent timestamp with data (Unix seconds).
    pub latest_ts: Vec<(Interval, u64)>,
    /// Symbols of the currency pairs needed to convert to the base currency.
    pub legs: Vec<String>,
}

impl InstrumentProfile {
    /// A profile from its parts.
    pub fn new(
        instrument: Instrument,
        earliest_ts: Vec<(Interval, u64)>,
        latest_ts: Vec<(Interval, u64)>,
        legs: Vec<String>,
    ) -> (r: InstrumentProfile)
        ensures
            r == (InstrumentProfile { instrument, earliest_ts, latest_ts, legs }),
    {
        InstrumentProfile { instrument, earliest_ts, latest_ts, legs }
    }

    /// The instrument's symbol.
    pub fn symbol(&self) -> (r: &str)
        ensures
            r@ == self.instrument.symbol@,
    {
        self.instrument.symbol.as_str()
    }

    /// The instrument's name.
    pub fn name(&self) -> (r: &str)
        ensures
            r@ == self.instrument.name@,
    {
        self.instrument.name.as_str()
    }

    /// The instrument's type.
    pub fn instrument_type(&self) -> (r: InstrumentType)
        ensures
            r == self.instrument.instrument_type,
    {
        self.instrument.instrument_type
    }

    /// The instrument's provider.
    pub fn provider(&self) -> (r: Provider)
        ensures
            r == self.instrument.provider,
    {
        self.instrument.provider
    }
}

/// The latest timestamp recorded for `iv` (the first matching entry).
pub open spec fn latest_for(latest: Seq<(Interval, u64)>, iv: Interval) -> Option<u64>
    decreases latest.len(),
{
    if latest.len() == 0 {
        None
    } else if latest[0].0 == iv {
        Some(latest[0].1)
    } else {
        latest_for(latest.drop_first(), iv)
    }
}

/// Every interval with an earliest timestamp also has a latest one.
pub open spec fn profile_complete(p: InstrumentProfile) -> bool {
    forall|i: int| 0 <= i < p.earliest_ts@.len() ==> #[trigger] latest_for(p.latest_ts@, p.earliest_ts@[i].0) is Some
}

/// The latest timestamp recorded for an interval.
pub fn find_latest(latest: &Vec<(Interval, u64)>, iv: Interval) -> (r: Option<u64>)
    ensures
        r == latest_for(latest@, iv),
{
    let mut i: usize = 0;
    assert(latest@.subrange(0, latest@.len() as int) =~= latest@);
    while i < latest.len()
        invariant
            i <= latest.len(),
            latest_for(latest@, iv) == latest_for(latest@.subrange(i as int, latest@.len() as int), iv),
        decreases latest.len() - i,
    {
        assert(latest@.subrange(i as int, latest@.len() as int).drop_first() =~= latest@.subrange(i + 1, latest@.len() as int));
        if latest[i].0 == iv {
            return Some(latest[i].1);
        }
        i = i + 1;
    }
    None
}

/// The tasks planned for one profile: for each of its intervals, in order, the
/// ranges of [`plan_ranges`] given the coverage already stored for the series.
pub open spec fn profile_tasks(
    p: InstrumentProfile,
    provider: Provider,
    user_start: Option<u64>,
    user_end: Option<u64>,
    stored: Seq<StoredRange>,
    k: int,
) -> Seq<(Interval, nat, nat)>
    decreases k,
{
    if k <= 0 {
        Seq::empty()
    } else {
        let (iv, meta_start) = p.earliest_ts@[k - 1];
        let meta_end = latest_for(p.latest_ts@, iv)->0;
        let ranges = plan_ranges(
            meta_start as nat,
            meta_end as nat,
            user_start,
            user_end,
            stored_lookup(stored, p.instrument.symbol@, iv, provider),
            interval_seconds(iv),
        );
        profile_tasks(p, provider, user_start, user_end, stored, k - 1) + Seq::new(ranges.len(), |j: int| (iv, ranges[j].0, ranges[j].1))
    }
}

/// The download plan for a list of profiles.
pub open spec fn plan_spec(
    profiles: Seq<InstrumentProfile>,
    providers: spec_fn(InstrumentType) -> Provider,
    user_start: Option<u64>,
    user_end: Option<u64>,
    stored: Seq<StoredRange>,
) -> Seq<(Seq<char>, InstrumentType, Interval, nat, nat)>
    decreases profiles.len(),
{
    if profiles.len() == 0 {
        Seq::empty()
    } else {
        let p = profiles.last();
        let it = p.instrument.instrument_type;
        let ts = profile_tasks(p, providers(it), user_start, user_end, stored, p.earliest_ts@.len() as int);
        plan_spec(profiles.drop_last(), providers, user_start, user_end, stored)
            + Seq::new(ts.len(), |j: int| (p.instrument.symbol@, it, ts[j].0, ts[j].1, ts[j].2))
    }
}

/// The view of a task.
pub open spec fn task_view(t: DownloadTask) -> (Seq<char>, InstrumentType, Interval, nat, nat) {
    (t.symbol@, t.instrument_type, t.interval, t.start as nat, t.end as nat)
}

/// The provider configured for each instrument type.
pub struct ProviderConfig {
    pub stocks: Provider,
    pub etf: Provider,
    pub forex: Provider,
    pub crypto: Provider,
}

impl ProviderConfig {
    /// The provider configured for an instrument type.
    pub open spec fn provider_for(&self, it: InstrumentType) -> Provider {
        match it {
            InstrumentType::Stocks => self.stocks,
            InstrumentType::Etf => self.etf,
            InstrumentType::Forex => self.forex,
            InstrumentType::Crypto => self.crypto,
        }
    }

    /// The provider configured for an instrument type.
    pub fn provider(&self, it: InstrumentType) -> (p: Provider)
        ensures
            p == self.provider_for(it),
    {
        match it {
            InstrumentType::Stocks => self.stocks,
            InstrumentType::Etf => self.etf,
            InstrumentType::Forex => self.forex,
            InstrumentType::Crypto => self.crypto,
        }
    }
}

/// The providers to start, each once, in the order the instrument types
/// (stocks, ETFs, forex, crypto) first use them; instrument types sharing a
/// provider share its instance.
pub fn provider_instances(config: &ProviderConfig) -> (r: Vec<Provider>)
    ensures
        r@.no_duplicates(),
        forall|p: Provider| r@.contains(p) <==> (p == config.stocks || p == config.etf || p == config.forex
            || p == config.crypto),
        r@.len() > 0 && r@[0] == config.stocks,
{
    let mut out: Vec<Provider> = Vec::new();
    out.push(config.stocks);
    if config.etf != config.stocks {
        out.push(config.etf);
    }
    if config.forex != config.stocks && config.forex != config.etf {
        out.push(config.forex);
    }
    if config.crypto != config.stocks && config.crypto != config.etf && config.crypto != config.forex {
        out.push(config.crypto);
    }
    proof {
        let o = out@;
        assert forall|p: Provider| o.contains(p) <==> (p == config.stocks || p == config.etf || p == config.forex
            || p == config.crypto) by {
            if p == config.stocks {
                assert(o[0] == p);
            }
            if p == config.etf {
                if p != config.stocks {
                    assert(o[1] == p);
                } else {
                    assert(o[0] == p);
                }
            }
            if p == config.forex {
                if p == config.stocks {
                    assert(o[0] == p);
                } else if p == config.etf {
                    assert(o[1] == p);
                } else if config.etf != config.stocks {
                    assert(o[2] == p);
                } else {
                    assert(o[1] == p);
                }
            }
            if p == config.crypto {
                if p == config.stocks {
                    assert(o[0] == p);
                } else if p == config.etf {
                    assert(o[1] == p);
                } else if p == config.forex {
                    assert(o.contains(config.forex));
                } else {
                    assert(o[o.len() - 1] == p);
                }
            }
        }
    }
    out
}

/// Build the list of `(symbol, instrument type, interval, start, end)` download
/// tasks for the profiles: only the parts of each requested range that storage
/// does not already hold are planned.
pub fn plan_downloads(
    profiles: &Vec<InstrumentProfile>,
    providers: &ProviderConfig,
    user_start: Option<u64>,
    user_end: Option<u64>,
    stored: &Vec<StoredRange>,
) -> (r: Vec<DownloadTask>)
    requires
        forall|i: int| 0 <= i < profiles@.len() ==> profile_complete(#[trigger] profiles@[i]),
    ensures
        r@.len() == plan_spec(profiles@, |it: InstrumentType| providers.provider_for(it), user_start, user_end, stored@).len(),
        forall|i: int| 0 <= i < r@.len() ==> task_view(#[trigger] r@[i]) == plan_spec(
            profiles@, |it: InstrumentType| providers.provider_for(it), user_start, user_end, stored@)[i],
        forall|i: int| 0 <= i < r@.len() ==> #[trigger] r@[i].start < r@[i].end,
{
    let ghost pf = |it: InstrumentType| providers.provider_for(it);
    let mut tasks: Vec<DownloadTask> = Vec::new();
    let mut i: usize = 0;
    while i < profiles.len()
        invariant
            i <= profiles.len(),
            forall|q: int| 0 <= q < profiles@.len() ==> profile_complete(#[trigger] profiles@[q]),
            pf == (|it: InstrumentType| providers.provider_for(it)),
            tasks@.len() == plan_spec(profiles@.subrange(0, i as int), pf, user_start, user_end, stored@).len(),
            forall|q: int| 0 <= q < tasks@.len() ==> task_view(#[trigger] tasks@[q]) == plan_spec(
                profiles@.subrange(0, i as int), pf, user_start, user_end, stored@)[q],
            forall|q: int| 0 <= q < tasks@.len() ==> #[trigger] tasks@[q].start < tasks@[q].end,
        decreases profiles.len() - i,
    {
        let ghost before = tasks@;
        let profile = &profiles[i];
        let symbol = &profile.instrument.symbol;
        let it = profile.instrument.instrument_type;
        let provider = providers.provider(it);
        let mut k: usize = 0;
        while k < profile.earliest_ts.len()
            invariant
                k <= profile.earliest_ts.len(),
                profile_complete(*profile),
                symbol@ == profile.instrument.symbol@,
                it == profile.instrument.instrument_type,
                provider == providers.provider_for(it),
                tasks@.len() == before.len() + profile_tasks(*profile, provider, user_start, user_end, stored@, k as int).len(),
                forall|q: int| 0 <= q < before.len() ==> tasks@[q] == before[q],
                forall|q: int| 0 <= q < profile_tasks(*profile, provider, user_start, user_end, stored@, k as int).len() ==> ({
                    let t = profile_tasks(*profile, provider, user_start, user_end, stored@, k as int)[q];
                    task_view(#[trigger] tasks@[before.len() + q]) == (symbol@, it, t.0, t.1, t.2)
                }),
                forall|q: int| 0 <= q < tasks@.len() ==> #[trigger] tasks@[q].start < tasks@[q].end,
            decreases profile.earliest_ts.len() - k,
        {
            let (iv, meta_start) = profile.earliest_ts[k];
            assert(latest_for(profile.latest_ts@, profile.earliest_ts@[k as int].0) is Some);
            let meta_end = find_latest(&profile.latest_ts, iv).unwrap();
            let stored_range = find_stored_range(stored, symbol.as_str(), iv, provider);
            let ranges = plan_interval(meta_start, meta_end, user_start, user_end, stored_range, iv);
            let ghost mid = tasks@;
            let ghost prev_len = profile_tasks(*profile, provider, user_start, user_end, stored@, k as int).len();
            let mut j: usize = 0;
            while j < ranges.len()
                invariant
                    j <= ranges.len(),
                    tasks@.len() == mid.len() + j,
                    forall|q: int| 0 <= q < mid.len() ==> tasks@[q] == mid[q],
                    forall|q: int| 0 <= q < j ==> task_view(#[trigger] tasks@[mid.len() + q]) == (symbol@, it, iv, ranges@[q].0 as nat, ranges@[q].1 as nat),
                    forall|q: int| 0 <= q < ranges@.len() ==> #[trigger] ranges@[q].0 < ranges@[q].1,
                    forall|q: int| 0 <= q < tasks@.len() ==> #[trigger] tasks@[q].start < tasks@[q].end,
                decreases ranges.len() - j,
            {
                let (s, e) = ranges[j];
                tasks.push(DownloadTask { symbol: symbol.clone(), instrument_type: it, interval: iv, start: s, end: e });
                j = j + 1;
            }
            proof {
                let pt = profile_tasks(*profile, provider, user_start, user_end, stored@, k + 1);
                let pk = profile_tasks(*profile, provider, user_start, user_end, stored@, k as int);
                let pr = plan_ranges(meta_start as nat, meta_end as nat, user_start, user_end, stored_range, interval_seconds(iv));
                assert(pt == pk + Seq::new(pr.len(), |jj: int| (iv, pr[jj].0, pr[jj].1)));
                assert forall|q: int| 0 <= q < pt.len() implies ({
                    let t = pt[q];
                    task_view(#[trigger] tasks@[before.len() + q]) == (symbol@, it, t.0, t.1, t.2)
                }) by {
                    if q >= pk.len() {
                        let jj = q - pk.len();
                        assert(before.len() + q == mid.len() + jj);
                        assert(pr[jj] == (ranges@[jj].0 as nat, ranges@[jj].1 as nat));
                    } else {
                        assert(tasks@[before.len() + q] == mid[before.len() + q]);
                    }
                }
            }
            k = k + 1;
        }
        proof {
            let sub = profiles@.subrange(0, i + 1);
            assert(sub.drop_last() =~= profiles@.subrange(0, i as int));
            assert(sub.last() == *profile);
            let ts = profile_tasks(*profile, provider, user_start, user_end, stored@, profile.earliest_ts@.len() as int);
            let prev = plan_spec(profiles@.subrange(0, i as int), pf, user_start, user_end, stored@);
            assert(pf(it) == provider);
            assert(plan_spec(sub, pf, user_start, user_end, stored@) == prev + Seq::new(ts.len(), |j: int| (profile.instrument.symbol@, it, ts[j].0, ts[j].1, ts[j].2)));
            assert forall|q: int| 0 <= q < tasks@.len() implies task_view(#[trigger] tasks@[q]) == plan_spec(sub, pf, user_start, user_end, stored@)[q] by {
                let full = plan_spec(sub, pf, user_start, user_end, stored@);
                if q >= before.len() {
                    let qq = q - before.len();
                    assert(0 <= qq < ts.len());
                    assert(task_view(tasks@[before.len() + qq]) == (symbol@, it, ts[qq].0, ts[qq].1, ts[qq].2));
                    assert(full[q] == (profile.instrument.symbol@, it, ts[qq].0, ts[qq].1, ts[qq].2));
                } else {
                    assert(tasks@[q] == before[q]);
                    assert(full[q] == prev[q]);
                }
            }
        }
        i = i + 1;
    }
    assert(profiles@.subrange(0, profiles.len() as int) =~= profiles@);
    tasks
}

// ───────────────────────────── outcome summary ─────────────────────────────

/// The result of one download task: `None` on success, else the error message.
#[derive(Debug, Clone, PartialEq, Eq)]
pub struct TaskOutcome {
    pub symbol: String,
    pub interval: Interval,
    pub error: Option<String>,
}

/// The warning reported for a failed task: `SYMBOL (interval): message`.
pub open spec fn warning_text(symbol: Seq<char>, iv: Interval, msg: Seq<char>) -> Seq<char> {
    symbol + " ("@ + interval_label(iv) + "): "@ + msg
}

/// The warnings of the failed outcomes, in order.
pub open spec fn warnings_of(outcomes: Seq<TaskOutcome>) -> Seq<Seq<char>>
    decreases outcomes.len(),
{
    if outcomes.len() == 0 {
        Seq::empty()
    } else {
        let rest = warnings_of(outcomes.drop_last());
        let o = outcomes.last();
        match o.error {
            Some(m) => rest.push(warning_text(o.symbol@, o.interval, m@)),
            None => rest,
        }
    }
}

/// Summarize task outcomes: successes are counted, failures become warnings.
pub fn summarize_outcomes(outcomes: &Vec<TaskOutcome>) -> (r: DownloadResult)
    ensures
        views(r.warnings@) == warnings_of(outcomes@),
        r.n_failed == r.warnings.len(),
        r.n_succeeded + r.n_failed == outcomes.len(),
{
    let mut n_succeeded: usize = 0;
    let mut warnings: Vec<String> = Vec::new();
    let mut i: usize = 0;
    while i < outcomes.len()
        invariant
            i <= outcomes.len(),
            views(warnings@) == warnings_of(outcomes@.subrange(0, i as int)),
            n_succeeded + warnings.len() == i,
        decreases outcomes.len() - i,
    {
        let o = &outcomes[i];
        assert(outcomes@.subrange(0, i + 1).drop_last() =~= outcomes@.subrange(0, i as int));
        match &o.error {
            None => {
                n_succeeded = n_succeeded + 1;
            },
            Some(msg) => {
                let mut w = o.symbol.clone();
                w.append(" (");
                w.append(o.interval.label().as_str());
                w.append("): ");
                w.append(msg.as_str());
                proof {
                    assert(views(warnings@.push(w)) =~= views(warnings@).push(w@));
                }
                warnings.push(w);
            },
        }
        i = i + 1;
    }
    assert(outcomes@.subrange(0, outcomes.len() as int) =~= outcomes@);
    let n_failed = warnings.len();
    DownloadResult { n_succeeded, n_failed, warnings }
}

// ───────────────────────────── row selection ─────────────────────────────

/// The timestamp lies in `[lo, hi)`, or in `[lo, ∞)` when `hi` is `None`.
pub open spec fn in_window(t: u64, lo: u64, hi: Option<u64>) -> bool {
    lo <= t && (hi matches Some(h) ==> t < h)
}

/// `idx` lists, in ascending timestamp order, the first row of each distinct
/// timestamp among the rows in the window (what a stable sort by timestamp
/// followed by removing consecutive duplicates keeps).
pub open spec fn ordered_unique(ts: Seq<u64>, lo: u64, hi: Option<u64>, idx: Seq<usize>) -> bool {
    &&& forall|k: int| 0 <= k < idx.len() ==> #[trigger] idx[k] < ts.len() && in_window(ts[idx[k] as int], lo, hi)
    &&& forall|a: int, b: int| 0 <= a < b < idx.len() ==> ts[#[trigger] idx[a] as int] < ts[#[trigger] idx[b] as int]
    &&& forall|k: int, j: int| 0 <= k < idx.len() && 0 <= j < idx[k] ==> #[trigger] ts[j] != ts[#[trigger] idx[k] as int]
    &&& forall|j: int| 0 <= j < ts.len() && in_window(ts[j], lo, hi) ==> exists|k: int| 0 <= k < idx.len() && #[trigger] ts[idx[k] as int] == ts[j]
}

/// The position of the first row holding the smallest timestamp above `floor`
/// (any timestamp when `floor` is `None`) among the rows in the window.
fn next_smallest(ts: &Vec<u64>, floor: Option<u64>, lo: u64, hi: Option<u64>) -> (r: Option<usize>)
    ensures
        match r {
            Some(i) => {
                &&& i < ts.len()
                &&& in_window(ts@[i as int], lo, hi)
                &&& floor matches Some(f) ==> ts@[i as int] > f
                &&& forall|j: int| 0 <= j < ts.len() && in_window(ts@[j], lo, hi) && (floor matches Some(f) ==> ts@[j] > f) ==> ts@[i as int] <= ts@[j]
                &&& forall|j: int| 0 <= j < i ==> ts@[j] != ts@[i as int]
            },
            None => forall|j: int| 0 <= j < ts.len() && in_window(ts@[j], lo, hi) ==> (floor matches Some(f) && ts@[j] <= f),
        },
{
    let mut best: Option<usize> = None;
    let mut j: usize = 0;
    while j < ts.len()
        invariant
            j <= ts.len(),
            match best {
                Some(b) => {
                    &&& b < j
                    &&& in_window(ts@[b as int], lo, hi)
                    &&& floor matches Some(f) ==> ts@[b as int] > f
                    &&& forall|q: int| 0 <= q < j && in_window(ts@[q], lo, hi) && (floor matches Some(f) ==> ts@[q] > f) ==> ts@[b as int] <= ts@[q]
                    &&& forall|q: int| 0 <= q < b ==> ts@[q] != ts@[b as int]
                },
                None => forall|q: int| 0 <= q < j && in_window(ts@[q], lo, hi) ==> (floor matches Some(f) && ts@[q] <= f),
            },
        decreases ts.len() - j,
    {
        let t = ts[j];
        let above = match floor {
            Some(f) => t > f,
            None => true,
        };
        let inside = lo <= t && match hi {
            Some(h) => t < h,
            None => true,
        };
        if inside && above {
            match best {
                Some(b) => {
                    if t < ts[b] {
                        best = Some(j);
                        assert forall|q: int| 0 <= q < j implies ts@[q] != ts@[j as int] by {
                            if in_window(ts@[q], lo, hi) && (floor matches Some(f) ==> ts@[q] > f) {
                                assert(ts@[b as int] <= ts@[q]);
                            }
                        }
                    }
                },
                None => {
                    best = Some(j);
                    assert forall|q: int| 0 <= q < j implies ts@[q] != ts@[j as int] by {
                        if in_window(ts@[q], lo, hi) {
                            assert(floor matches Some(f) && ts@[q] <= f);
                        }
                    }
                },
            }
        }
        j = j + 1;
    }
    best
}

/// Indices with pairwise distinct timestamps number at most the rows.
proof fn lemma_distinct_indices_bound(ts: Seq<u64>, idx: Seq<usize>)
    requires
        forall|k: int| 0 <= k < idx.len() ==> #[trigger] idx[k] < ts.len(),
        forall|a: int, b: int| 0 <= a < b < idx.len() ==> ts[#[trigger] idx[a] as int] != ts[#[trigger] idx[b] as int],
    ensures
        idx.len() <= ts.len(),
{
    let s = idx.map_values(|x: usize| x as int);
    assert forall|a: int, b: int| 0 <= a < s.len() && 0 <= b < s.len() && a != b implies s[a] != s[b] by {
        if a < b {
            assert(ts[idx[a] as int] != ts[idx[b] as int]);
        } else {
            assert(ts[idx[b] as int] != ts[idx[a] as int]);
        }
    }
    s.unique_seq_to_set();
    let range = Set::new(|x: int| 0 <= x < ts.len());
    assert(s.to_set().subset_of(range));
    vstd::set_lib::lemma_int_range(0, ts.len() as int);
    assert(range =~= vstd::set_lib::set_int_range(0, ts.len() as int));
    vstd::set_lib::lemma_len_subset(s.to_set(), range);
}

/// The rows in the window, sorted by timestamp with duplicates removed, keeping
/// the first row received for each timestamp.
#[verifier::rlimit(40)]
pub fn select_in_window(ts: &Vec<u64>, lo: u64, hi: Option<u64>) -> (r: Vec<usize>)
    ensures
        ordered_unique(ts@, lo, hi, r@),
{
    let mut out: Vec<usize> = Vec::new();
    let mut floor: Option<u64> = None;
    loop
        invariant
            out.len() <= ts.len(),
            forall|k: int| 0 <= k < out.len() ==> #[trigger] out@[k] < ts.len() && in_window(ts@[out@[k] as int], lo, hi),
            forall|a: int, b: int| 0 <= a < b < out.len() ==> ts@[#[trigger] out@[a] as int] < ts@[#[trigger] out@[b] as int],
            forall|k: int, j: int| 0 <= k < out.len() && 0 <= j < out@[k] ==> #[trigger] ts@[j] != ts@[#[trigger] out@[k] as int],
            match floor {
                Some(f) => out.len() > 0 && f == ts@[out@[out.len() - 1] as int],
                None => out.len() == 0,
            },
            forall|j: int| 0 <= j < ts.len() && in_window(ts@[j], lo, hi) && (floor matches Some(f) && ts@[j] <= f) ==> exists|k: int| 0 <= k < out.len() && #[trigger] ts@[out@[k] as int] == ts@[j],
        decreases ts.len() - out.len(),
    {
        match next_smallest(ts, floor, lo, hi) {
            None => {
                return out;
            },
            Some(i) => {
                let ghost old_out = out@;
                proof {
                    assert forall|k: int| 0 <= k < old_out.len() implies ts@[old_out[k] as int] < ts@[i as int] by {
                        if old_out.len() > 0 && k < old_out.len() - 1 {
                            assert(ts@[old_out[k] as int] < ts@[old_out[old_out.len() - 1] as int]);
                        }
                    }
                    let ext = old_out.push(i);
                    assert forall|a: int, b: int| 0 <= a < b < ext.len() implies ts@[#[trigger] ext[a] as int] != ts@[#[trigger] ext[b] as int] by {
                        if b == ext.len() - 1 {
                            assert(ext[a] == old_out[a]);
                        } else {
                            assert(ext[a] == old_out[a] && ext[b] == old_out[b]);
                        }
                    }
                    lemma_distinct_indices_bound(ts@, ext);
                }
                out.push(i);
                floor = Some(ts[i]);
                proof {
                    assert forall|a: int, b: int| 0 <= a < b < out.len() implies ts@[#[trigger] out@[a] as int] < ts@[#[trigger] out@[b] as int] by {
                        if b == out.len() - 1 {
                            assert(out@[a] == old_out[a]);
                        } else {
                            assert(out@[a] == old_out[a] && out@[b] == old_out[b]);
                        }
                    }
                    assert forall|j: int| 0 <= j < ts.len() && in_window(ts@[j], lo, hi) && ts@[j] <= ts@[i as int] implies exists|k: int| 0 <= k < out.len() && #[trigger] ts@[out@[k] as int] == ts@[j] by {
                        if ts@[j] == ts@[i as int] {
                            assert(ts@[out@[out.len() - 1] as int] == ts@[j]);
                        } else {
                            let k = choose|k: int| 0 <= k < old_out.len() && #[trigger] ts@[old_out[k] as int] == ts@[j];
                            assert(out@[k] == old_out[k]);
                        }
                    }
                }
            },
        }
    }
}

/// The rows of a download: timestamps in `[start, end)`, sorted, one row per timestamp.
pub fn select_rows(ts: &Vec<u64>, start: u64, end: u64) -> (r: Vec<usize>)
    ensures
        ordered_unique(ts@, start, Some(end), r@),
{
    select_in_window(ts, start, Some(end))
}

/// The last `n` elements (all of them when there are fewer).
pub open spec fn last_n<T>(s: Seq<T>, n: nat) -> Seq<T> {
    if s.len() > n {
        s.subrange(s.len() - n, s.len() as int)
    } else {
        s
    }
}

/// The rows of a daily preview: sorted by timestamp without duplicates, then
/// only the most recent `limit` of them.
pub fn select_preview(ts: &Vec<u64>, limit: usize) -> (r: Vec<usize>)
    ensures
        exists|all: Seq<usize>| #[trigger] ordered_unique(ts@, 0, None, all) && r@ == last_n(all, limit as nat),
{
    let all = select_in_window(ts, 0, None);
    let n = all.len();
    if n <= limit {
        return all;
    }
    let mut out: Vec<usize> = Vec::new();
    let mut i: usize = n - limit;
    while i < n
        invariant
            n == all.len(),
            n > limit,
            n - limit <= i <= n,
            out@ == all@.subrange(n - limit, i as int),
        decreases n - i,
    {
        out.push(all[i]);
        i = i + 1;
    }
    out
}

/// Two selections of the same rows agree on the timestamps of their first `k` entries.
proof fn lemma_ordered_unique_prefix(ts: Seq<u64>, lo: u64, hi: Option<u64>, a: Seq<usize>, b: Seq<usize>, k: int)
    requires
        ordered_unique(ts, lo, hi, a),
        ordered_unique(ts, lo, hi, b),
        0 <= k <= a.len(),
        k <= b.len(),
    ensures
        forall|i: int| 0 <= i < k ==> ts[#[trigger] a[i] as int] == ts[b[i] as int],
    decreases k,
{
    if k > 0 {
        lemma_ordered_unique_prefix(ts, lo, hi, a, b, k - 1);
        let i = k - 1;
        assert(a[i] < ts.len() && in_window(ts[a[i] as int], lo, hi));
        assert(b[i] < ts.len() && in_window(ts[b[i] as int], lo, hi));
        let m = choose|m: int| 0 <= m < b.len() && #[trigger] ts[b[m] as int] == ts[a[i] as int];
        let n = choose|n: int| 0 <= n < a.len() && #[trigger] ts[a[n] as int] == ts[b[i] as int];
        if m < i {
            assert(ts[a[m] as int] == ts[b[m] as int]);
            assert(ts[a[m] as int] < ts[a[i] as int]);
        } else if m > i {
            assert(ts[b[i] as int] < ts[b[m] as int]);
        }
        if n < i {
            assert(ts[a[n] as int] == ts[b[n] as int]);
            assert(ts[b[n] as int] < ts[b[i] as int]);
        } else if n > i {
            assert(ts[a[i] as int] < ts[a[n] as int]);
        }
    }
}

/// A selection is determined by the rows: at most one index list meets
/// [`ordered_unique`] for given timestamps and window, so the contracts of
/// [`select_in_window`], [`select_rows`] and [`select_preview`] fix their results.
pub proof fn law_row_selection_is_unique(ts: Seq<u64>, lo: u64, hi: Option<u64>, a: Seq<usize>, b: Seq<usize>)
    requires
        ordered_unique(ts, lo, hi, a),
        ordered_unique(ts, lo, hi, b),
    ensures
        a == b,
{
    if a.len() > b.len() {
        lemma_ordered_unique_prefix(ts, lo, hi, a, b, b.len() as int);
        let i = b.len() as int;
        assert(a[i] < ts.len() && in_window(ts[a[i] as int], lo, hi));
        let m = choose|m: int| 0 <= m < b.len() && #[trigger] ts[b[m] as int] == ts[a[i] as int];
        assert(ts[a[m] as int] == ts[b[m] as int]);
        assert(ts[a[m] as int] < ts[a[i] as int]);
    } else if b.len() > a.len() {
        lemma_ordered_unique_prefix(ts, lo, hi, b, a, a.len() as int);
        let i = a.len() as int;
        assert(b[i] < ts.len() && in_window(ts[b[i] as int], lo, hi));
        let m = choose|m: int| 0 <= m < a.len() && #[trigger] ts[a[m] as int] == ts[b[i] as int];
        assert(ts[b[m] as int] == ts[a[m] as int]);
        assert(ts[b[m] as int] < ts[b[i] as int]);
    }
    lemma_ordered_unique_prefix(ts, lo, hi, a, b, a.len() as int);
    assert forall|i: int| 0 <= i < a.len() implies a[i] == b[i] by {
        assert(ts[a[i] as int] == ts[b[i] as int]);
        if a[i] < b[i] {
            assert(ts[a[i] as int] != ts[b[i] as int]);
        } else if b[i] < a[i] {
            assert(ts[b[i] as int] != ts[a[i] as int]);
        }
    }
    assert(a =~= b);
}

// ───────────────────────────── dividend deduplication ─────────────────────────────

/// The dividend rows written for one series: walking from the last row to the
/// first, each ex-date's first row met (its last occurrence) is kept.
pub open spec fn last_per_date(dates: Seq<u64>, idx: Seq<usize>) -> bool {
    &&& forall|k: int| 0 <= k < idx.len() ==> #[trigger] idx[k] < dates.len()
    &&& forall|a: int, b: int| 0 <= a < b < idx.len() ==> #[trigger] idx[a] > #[trigger] idx[b]
    &&& forall|k: int, j: int| 0 <= k < idx.len() && idx[k] < j < dates.len() ==> #[trigger] dates[j] != dates[#[trigger] idx[k] as int]
    &&& forall|j: int| 0 <= j < dates.len() ==> #[trigger] date_covered(dates, idx, dates[j])
}

/// Some kept row holds the date `d`.
pub open spec fn date_covered(dates: Seq<u64>, idx: Seq<usize>, d: u64) -> bool {
    exists|k: int| 0 <= k < idx.len() && #[trigger] dates[idx[k] as int] == d
}

/// Whether some kept row holds the date `d`.
fn date_kept(dates: &Vec<u64>, out: &Vec<usize>, d: u64) -> (r: bool)
    requires
        forall|k: int| 0 <= k < out.len() ==> #[trigger] out@[k] < dates.len(),
    ensures
        r == date_covered(dates@, out@, d),
{
    let mut k: usize = 0;
    while k < out.len()
        invariant
            k <= out.len(),
            forall|q: int| 0 <= q < out.len() ==> #[trigger] out@[q] < dates.len(),
            forall|q: int| 0 <= q < k ==> #[trigger] dates@[out@[q] as int] != d,
        decreases out.len() - k,
    {
        if dates[out[k]] == d {
            assert(dates@[out@[k as int] as int] == d);
            return true;
        }
        k = k + 1;
    }
    false
}

/// The invariant of the reverse walk over the dividend rows, once rows `i..` were visited.
pub open spec fn walk_inv(dates: Seq<u64>, out: Seq<usize>, i: int) -> bool {
    &&& forall|k: int| 0 <= k < out.len() ==> #[trigger] out[k] < dates.len() && out[k] >= i
    &&& forall|a: int, b: int| 0 <= a < b < out.len() ==> #[trigger] out[a] > #[trigger] out[b]
    &&& forall|k: int, j: int| 0 <= k < out.len() && out[k] < j < dates.len() ==> #[trigger] dates[j] != dates[#[trigger] out[k] as int]
    &&& forall|j: int| i <= j < dates.len() ==> #[trigger] date_covered(dates, out, dates[j])
}

/// Visiting row `i` keeps the walk invariant.
proof fn lemma_walk_step(dates: Seq<u64>, out: Seq<usize>, i: usize, kept: bool)
    requires
        0 <= i < dates.len(),
        walk_inv(dates, out, i + 1),
        kept == date_covered(dates, out, dates[i as int]),
    ensures
        kept ==> walk_inv(dates, out, i as int),
        !kept ==> walk_inv(dates, out.push(i), i as int),
{
    if kept {
        let q = choose|k: int| 0 <= k < out.len() && #[trigger] dates[out[k] as int] == dates[i as int];
        assert forall|j: int| i <= j < dates.len() implies #[trigger] date_covered(dates, out, dates[j]) by {
            if j == i as int {
                assert(dates[out[q] as int] == dates[j]);
            }
        }
    } else {
        let n = out.push(i);
        assert forall|k: int| 0 <= k < n.len() implies #[trigger] n[k] < dates.len() && n[k] >= i by {
            if k < out.len() {
                assert(n[k] == out[k]);
            }
        }
        assert forall|a: int, b: int| 0 <= a < b < n.len() implies #[trigger] n[a] > #[trigger] n[b] by {
            assert(n[a] == out[a]);
            if b < out.len() {
                assert(n[b] == out[b]);
            }
        }
        assert forall|k: int, j: int| 0 <= k < n.len() && n[k] < j < dates.len() implies #[trigger] dates[j] != dates[#[trigger] n[k] as int] by {
            if k == out.len() {
                if dates[j] == dates[i as int] {
                    assert(date_covered(dates, out, dates[j]));
                    let q = choose|q: int| 0 <= q < out.len() && #[trigger] dates[out[q] as int] == dates[j];
                    assert(dates[out[q] as int] == dates[i as int]);
                }
            } else {
                assert(n[k] == out[k]);
            }
        }
        assert forall|j: int| i <= j < dates.len() implies #[trigger] date_covered(dates, n, dates[j]) by {
            if j == i as int {
                assert(n[out.len() as int] == i);
                assert(dates[n[out.len() as int] as int] == dates[j]);
            } else {
                assert(date_covered(dates, out, dates[j]));
                let q = choose|q: int| 0 <= q < out.len() && #[trigger] dates[out[q] as int] == dates[j];
                assert(n[q] == out[q]);
                assert(dates[n[q] as int] == dates[j]);
            }
        }
        assert(walk_inv(dates, n, i as int));
    }
}

/// Row `i` is the last row of its ex-date.
pub open spec fn last_of_date(dates: Seq<u64>, i: int) -> bool {
    0 <= i < dates.len() && forall|j: int| i < j < dates.len() ==> #[trigger] dates[j] != dates[i]
}

/// The rows kept by [`last_per_date`] are exactly the last rows of their ex-dates.
proof fn lemma_last_per_date_members(dates: Seq<u64>, idx: Seq<usize>)
    requires
        last_per_date(dates, idx),
    ensures
        forall|i: int| last_of_date(dates, i) <==> exists|k: int| 0 <= k < idx.len() && #[trigger] idx[k] as int == i,
{
    assert forall|i: int| last_of_date(dates, i) implies exists|k: int| 0 <= k < idx.len() && #[trigger] idx[k] as int == i by {
        assert(date_covered(dates, idx, dates[i]));
        let k = choose|k: int| 0 <= k < idx.len() && #[trigger] dates[idx[k] as int] == dates[i];
        assert(idx[k] < dates.len());
        if (idx[k] as int) < i {
            assert(dates[i] != dates[idx[k] as int]);
        } else if (idx[k] as int) > i {
            assert(dates[idx[k] as int] != dates[i]);
        }
    }
    assert forall|i: int| (exists|k: int| 0 <= k < idx.len() && #[trigger] idx[k] as int == i) implies last_of_date(dates, i) by {
        let k = choose|k: int| 0 <= k < idx.len() && #[trigger] idx[k] as int == i;
        assert(idx[k] < dates.len());
        assert forall|j: int| i < j < dates.len() implies #[trigger] dates[j] != dates[i] by {
            assert(dates[j] != dates[idx[k] as int]);
        }
    }
}

/// Two strictly decreasing index lists with the same members agree on their first `k` entries.
proof fn lemma_decreasing_prefix(a: Seq<usize>, b: Seq<usize>, k: int)
    requires
        forall|x: int, y: int| 0 <= x < y < a.len() ==> #[trigger] a[x] > #[trigger] a[y],
        forall|x: int, y: int| 0 <= x < y < b.len() ==> #[trigger] b[x] > #[trigger] b[y],
        forall|i: int| 0 <= i < a.len() ==> b.contains(#[trigger] a[i]),
        forall|i: int| 0 <= i < b.len() ==> a.contains(#[trigger] b[i]),
        0 <= k <= a.len(),
        k <= b.len(),
    ensures
        forall|i: int| 0 <= i < k ==> #[trigger] a[i] == b[i],
    decreases k,
{
    if k > 0 {
        lemma_decreasing_prefix(a, b, k - 1);
        let i = k - 1;
        let m = choose|m: int| 0 <= m < b.len() && #[trigger] b[m] == a[i];
        let n = choose|n: int| 0 <= n < a.len() && #[trigger] a[n] == b[i];
        if m < i {
            assert(a[m] == b[m]);
            assert(a[m] > a[i]);
        } else if m > i {
            assert(b[i] > b[m]);
        }
        if n < i {
            assert(a[n] == b[n]);
            assert(b[n] > b[i]);
        } else if n > i {
            assert(a[i] > a[n]);
        }
    }
}

/// The dividend rows kept are determined by the dates: at most one index list
/// meets [`last_per_date`], so the contract of [`last_row_per_date`] fixes its result.
pub proof fn law_dividend_rows_are_unique(dates: Seq<u64>, a: Seq<usize>, b: Seq<usize>)
    requires
        last_per_date(dates, a),
        last_per_date(dates, b),
    ensures
        a == b,
{
    lemma_last_per_date_members(dates, a);
    lemma_last_per_date_members(dates, b);
    assert forall|i: int| 0 <= i < a.len() implies b.contains(#[trigger] a[i]) by {
        assert(a[i] as int == a[i] as int);
        assert(last_of_date(dates, a[i] as int));
        let m = choose|m: int| 0 <= m < b.len() && #[trigger] b[m] as int == a[i] as int;
        assert(b[m] == a[i]);
    }
    assert forall|i: int| 0 <= i < b.len() implies a.contains(#[trigger] b[i]) by {
        assert(b[i] as int == b[i] as int);
        assert(last_of_date(dates, b[i] as int));
        let m = choose|m: int| 0 <= m < a.len() && #[trigger] a[m] as int == b[i] as int;
        assert(a[m] == b[i]);
    }
    if a.len() > b.len() {
        lemma_decreasing_prefix(a, b, b.len() as int);
        let i = b.len() as int;
        let m = choose|m: int| 0 <= m < b.len() && #[trigger] b[m] == a[i];
        assert(a[m] == b[m]);
        assert(a[m] > a[i]);
    } else if b.len() > a.len() {
        lemma_decreasing_prefix(b, a, a.len() as int);
        let i = a.len() as int;
        let m = choose|m: int| 0 <= m < a.len() && #[trigger] a[m] == b[i];
        assert(b[m] == a[m]);
        assert(b[m] > b[i]);
    }
    lemma_decreasing_prefix(a, b, a.len() as int);
    assert(a =~= b);
}

/// The rows to keep when writing dividends: the last row of each ex-date, in reverse order.
pub fn last_row_per_date(dates: &Vec<u64>) -> (r: Vec<usize>)
    ensures
        last_per_date(dates@, r@),
{
    let mut out: Vec<usize> = Vec::new();
    let mut i: usize = dates.len();
    while i > 0
        invariant
            i <= dates.len(),
            walk_inv(dates@, out@, i as int),
        decreases i,
    {
        i = i - 1;
        let d = dates[i];
        let kept = date_kept(dates, &out, d);
        proof {
            lemma_walk_step(dates@, out@, i, kept);
        }
        if !kept {
            out.push(i);
        }
    }
    proof {
        assert(walk_inv(dates@, out@, 0));
        assert(last_per_date(dates@, out@));
    }
    out
}

// ───────────────────────────── circuit breaker ─────────────────────────────

/// Consecutive failed downloads, and the count at which the remaining tasks
/// are skipped because the provider is likely unreachable or blocking.
#[derive(Debug, Clone, Copy, PartialEq, Eq)]
pub struct CircuitBreaker {
    pub threshold: usize,
    pub failures: usize,
}

/// The failure count after one more task: a success clears it, a failure adds one.
pub open spec fn record_spec(failures: nat, succeeded: bool) -> nat {
    if succeeded { 0 } else { failures + 1 }
}

/// The failure count after a run of task outcomes, in order.
pub open spec fn after_outcomes(failures: nat, outcomes: Seq<bool>) -> nat
    decreases outcomes.len(),
{
    if outcomes.len() == 0 {
        failures
    } else {
        record_spec(after_outcomes(failures, outcomes.drop_last()), outcomes.last())
    }
}

impl CircuitBreaker {
    /// A closed breaker that trips after `threshold` consecutive failures.
    pub fn new(threshold: usize) -> (r: CircuitBreaker)
        ensures
            r.threshold == threshold,
            r.failures == 0,
    {
        CircuitBreaker { threshold, failures: 0 }
    }

    /// Whether a task may run: once the consecutive failures reach the
    /// threshold, it is skipped with a `CircuitBreaker` error.
    pub fn check(&self) -> (r: Result<(), DataError>)
        ensures
            self.failures >= self.threshold ==> r == Err::<(), DataError>(DataError::CircuitBreaker(self.failures)),
            self.failures < self.threshold ==> r is Ok,
    {
        if self.failures >= self.threshold {
            Err(DataError::CircuitBreaker(self.failures))
        } else {
            Ok(())
        }
    }

    /// Record a task's outcome; returns whether this failure is the one that
    /// trips the breaker.
    pub fn record(&mut self, succeeded: bool) -> (tripped: bool)
        requires
            old(self).failures < usize::MAX,
        ensures
            final(self).threshold == old(self).threshold,
            final(self).failures == record_spec(old(self).failures as nat, succeeded),
            tripped == (!succeeded && old(self).failures + 1 == old(self).threshold),
    {
        if succeeded {
            self.failures = 0;
            false
        } else {
            self.failures = self.failures + 1;
            self.failures == self.threshold
        }
    }
}

/// After `threshold` consecutive failures the breaker stays open: every
/// further failure keeps the count at or above the threshold.
pub proof fn law_breaker_trips_after_consecutive_failures(failures: nat, outcomes: Seq<bool>, threshold: nat)
    requires
        forall|i: int| 0 <= i < outcomes.len() ==> !#[trigger] outcomes[i],
        failures + outcomes.len() >= threshold,
    ensures
        after_outcomes(failures, outcomes) == failures + outcomes.len(),
        after_outcomes(failures, outcomes) >= threshold,
    decreases outcomes.len(),
{
    if outcomes.len() > 0 {
        let d = outcomes.drop_last();
        assert forall|i: int| 0 <= i < d.len() implies !#[trigger] d[i] by {
            assert(d[i] == outcomes[i]);
        }
        assert(!outcomes[outcomes.len() - 1]);
        if failures + d.len() >= threshold {
            law_breaker_trips_after_consecutive_failures(failures, d, threshold);
        } else {
            law_breaker_trips_after_consecutive_failures(failures, d, failures + d.len());
        }
    }
}

/// A success closes the breaker again.
pub proof fn law_success_closes_breaker(failures: nat, outcomes: Seq<bool>)
    requires
        outcomes.len() > 0,
        outcomes.last(),
    ensures
        after_outcomes(failures, outcomes) == 0,
{
}

/// The smallest and largest number of daily bars a preview may ask for.
pub const MIN_PREVIEW_BARS: usize = 2;
pub const MAX_PREVIEW_BARS: usize = 60;

/// Check a preview request: the symbol (trimmed) must not be empty and the
/// number of bars must lie in `MIN_PREVIEW_BARS..=MAX_PREVIEW_BARS`. Gives the
/// trimmed symbol.
pub fn preview_request(symbol: &str, limit: usize) -> (r: Result<String, String>)
    ensures
        is_blank_seq(symbol@) ==> r is Err && r->Err_0@ == "symbol must not be empty"@,
        !is_blank_seq(symbol@) && (limit < MIN_PREVIEW_BARS || limit > MAX_PREVIEW_BARS) ==> r is Err
            && r->Err_0@ == "limit must be between 2 and 60"@,
        !is_blank_seq(symbol@) && MIN_PREVIEW_BARS <= limit <= MAX_PREVIEW_BARS ==> r is Ok
            && exists|lo: int, hi: int| trimmed(symbol@, lo, hi) && r->Ok_0@ == symbol@.subrange(lo, hi),
{
    let trimmed_symbol = trim_str(symbol);
    if trimmed_symbol.unicode_len() == 0 {
        proof {
            let (lo, hi) = choose|lo: int, hi: int| trimmed(symbol@, lo, hi) && trimmed_symbol@ == symbol@.subrange(lo, hi);
            assert forall|j: int| 0 <= j < symbol@.len() implies is_white(#[trigger] symbol@[j]) by {
                if lo < hi {
                    assert(trimmed_symbol@.len() > 0);
                }
                if j >= lo {
                    assert(j >= hi);
                }
            }
        }
        return Err(owned("symbol must not be empty"));
    }
    proof {
        let (lo, hi) = choose|lo: int, hi: int| trimmed(symbol@, lo, hi) && trimmed_symbol@ == symbol@.subrange(lo, hi);
        assert(lo < hi);
        assert(!is_white(symbol@[lo]));
    }
    if limit < MIN_PREVIEW_BARS || limit > MAX_PREVIEW_BARS {
        return Err(owned("limit must be between 2 and 60"));
    }
    Ok(trimmed_symbol)
}

/// The window a daily preview of `limit` bars asks a provider for, ending at
/// `now`: three calendar days per bar, so that sessions skipped on weekends
/// and holidays still leave `limit` trading days.
pub fn preview_window(now: u64, limit: usize) -> (r: (u64, u64))
    requires
        259_200 * limit <= u64::MAX,
    ensures
        r.1 == now,
        r.0 == (if now >= 259_200 * limit { now - 259_200 * limit } else { 0 }),
{
    let span: u64 = 86_400 * (3 * limit as u64);
    (now.saturating_sub(span), now)
}

/// The window a download is clamped to: from the later of the provider's and
/// the user's start to the earlier of their ends.
pub open spec fn clamped_window(meta_start: nat, meta_end: nat, user_start: Option<u64>, user_end: Option<u64>) -> (nat, nat) {
    let s = match user_start {
        Some(x) => if x > meta_start { x as nat } else { meta_start },
        None => meta_start,
    };
    let e = match user_end {
        Some(x) => if x < meta_end { x as nat } else { meta_end },
        None => meta_end,
    };
    (s, e)
}

/// Only what storage lacks is downloaded, and nothing outside the requested
/// window when the stored bars overlap it: each planned range is non-empty,
/// lies inside the clamped window, and ends where the stored bars begin or
/// starts where they end.
pub proof fn law_plan_requests_only_missing_data(
    meta_start: nat,
    meta_end: nat,
    user_start: Option<u64>,
    user_end: Option<u64>,
    stored: Option<(u64, u64)>,
    secs: nat,
)
    requires
        stored matches Some((lo, hi)) ==> clamped_window(meta_start, meta_end, user_start, user_end).0 <= hi && lo
            <= clamped_window(meta_start, meta_end, user_start, user_end).1,
    ensures
        forall|i: int| 0 <= i < plan_ranges(meta_start, meta_end, user_start, user_end, stored, secs).len() ==> {
            let (a, b) = #[trigger] plan_ranges(meta_start, meta_end, user_start, user_end, stored, secs)[i];
            let (s, e) = clamped_window(meta_start, meta_end, user_start, user_end);
            &&& s <= a < b <= e
            &&& stored matches Some((lo, hi)) ==> (b == lo || a == hi)
        },
{
}

/// Storage covers a series for a request: the clamped window is empty, or the
/// stored bars reach to within one interval of both of its ends.
pub open spec fn covered(
    meta_start: nat,
    meta_end: nat,
    user_start: Option<u64>,
    user_end: Option<u64>,
    stored: Option<(u64, u64)>,
    secs: nat,
) -> bool {
    let (s, e) = clamped_window(meta_start, meta_end, user_start, user_end);
    s >= e || (stored matches Some((lo, hi)) && lo <= s + secs && hi + secs >= e)
}

/// Nothing is planned for a series exactly when storage covers it, within one
/// interval at each end of the clamped window.
pub proof fn law_plan_empty_exactly_when_covered(
    meta_start: nat,
    meta_end: nat,
    user_start: Option<u64>,
    user_end: Option<u64>,
    stored: Option<(u64, u64)>,
    secs: nat,
)
    ensures
        plan_ranges(meta_start, meta_end, user_start, user_end, stored, secs).len() == 0 <==> covered(
            meta_start,
            meta_end,
            user_start,
            user_end,
            stored,
            secs,
        ),
{
}

/// Downloading is idempotent: once storage holds the planned ranges (so that
/// it covers the clamped window, up to one interval at each end), planning
/// again requests nothing.
pub proof fn law_replanning_after_download_is_noop(
    meta_start: nat,
    meta_end: nat,
    user_start: Option<u64>,
    user_end: Option<u64>,
    stored: Option<(u64, u64)>,
    secs: nat,
    now_stored: (u64, u64),
)
    requires
        ({
            let (s, e) = clamped_window(meta_start, meta_end, user_start, user_end);
            now_stored.0 <= s + secs && now_stored.1 + secs >= e
        }),
    ensures
        plan_ranges(meta_start, meta_end, user_start, user_end, Some(now_stored), secs).len() == 0,
{
}

/// Storage covers every interval of a profile (see [`covered`]).
pub open spec fn profile_covered(
    p: InstrumentProfile,
    provider: Provider,
    user_start: Option<u64>,
    user_end: Option<u64>,
    stored: Seq<StoredRange>,
) -> bool {
    forall|k: int| 0 <= k < p.earliest_ts@.len() ==> {
        let (iv, meta_start) = #[trigger] p.earliest_ts@[k];
        covered(
            meta_start as nat,
            latest_for(p.latest_ts@, iv)->0 as nat,
            user_start,
            user_end,
            stored_lookup(stored, p.instrument.symbol@, iv, provider),
            interval_seconds(iv),
        )
    }
}

proof fn lemma_profile_tasks_empty(
    p: InstrumentProfile,
    provider: Provider,
    user_start: Option<u64>,
    user_end: Option<u64>,
    stored: Seq<StoredRange>,
    k: int,
)
    requires
        profile_covered(p, provider, user_start, user_end, stored),
        k <= p.earliest_ts@.len(),
    ensures
        profile_tasks(p, provider, user_start, user_end, stored, k).len() == 0,
    decreases k,
{
    if k > 0 {
        lemma_profile_tasks_empty(p, provider, user_start, user_end, stored, k - 1);
        let (iv, meta_start) = p.earliest_ts@[k - 1];
        law_plan_empty_exactly_when_covered(
            meta_start as nat,
            latest_for(p.latest_ts@, iv)->0 as nat,
            user_start,
            user_end,
            stored_lookup(stored, p.instrument.symbol@, iv, provider),
            interval_seconds(iv),
        );
    }
}

/// Re-planning a download is a no-op: when the stored bars cover every
/// interval of every profile (up to one interval at each end of its clamped
/// window), as they do once the planned ranges were downloaded and written,
/// the plan is empty.
pub proof fn law_replanning_profiles_is_noop(
    profiles: Seq<InstrumentProfile>,
    providers: spec_fn(InstrumentType) -> Provider,
    user_start: Option<u64>,
    user_end: Option<u64>,
    stored: Seq<StoredRange>,
)
    requires
        forall|i: int| 0 <= i < profiles.len() ==> profile_covered(
            #[trigger] profiles[i],
            providers(profiles[i].instrument.instrument_type),
            user_start,
            user_end,
            stored,
        ),
    ensures
        plan_spec(profiles, providers, user_start, user_end, stored).len() == 0,
    decreases profiles.len(),
{
    if profiles.len() > 0 {
        let p = profiles.last();
        assert(profile_covered(p, providers(p.instrument.instrument_type), user_start, user_end, stored)) by {
            assert(p == profiles[profiles.len() - 1]);
        }
        law_replanning_profiles_is_noop(profiles.drop_last(), providers, user_start, user_end, stored);
        lemma_profile_tasks_empty(
            p,
            providers(p.instrument.instrument_type),
            user_start,
            user_end,
            stored,
            p.earliest_ts@.len() as int,
        );
    }
}

} // verus!
