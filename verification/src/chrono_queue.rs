//! Chronological queueing of streamed candle updates.
//!
//! Providers send both in-progress ("partial") and closed ("final") candles,
//! and snapshots may replay older candles. Updates are queued so that, per
//! symbol, an older candle never follows a newer one, and a partial candle is
//! emitted once more as final when the next candle of its symbol arrives.

use vstd::prelude::*;
use std::collections::VecDeque;
use crate::text::str_eq;

verus! {

/// The key facts of one streamed candle update; `id` locates the full update
/// (prices, volume) in the caller's own store.
#[derive(Debug, Clone, PartialEq, Eq)]
pub struct BarUpdate {
    pub symbol: String,
    pub open_ts: u64,
    pub is_final: bool,
    pub id: u64,
}

impl BarUpdate {
    /// A field-by-field copy.
    pub fn duplicate(&self) -> (r: BarUpdate)
        ensures
            r == *self,
    {
        BarUpdate { symbol: self.symbol.clone(), open_ts: self.open_ts, is_final: self.is_final, id: self.id }
    }
}

/// The latest partial candle of each symbol.
pub struct PartialBars {
    items: Vec<BarUpdate>,
}

/// The symbol stored at position `i`.
pub open spec fn symbol_at(e: Seq<BarUpdate>, k: Seq<char>, i: int) -> bool {
    0 <= i < e.len() && e[i].symbol@ == k
}

/// The symbols of the items are pairwise distinct.
pub open spec fn symbols_unique(e: Seq<BarUpdate>) -> bool {
    forall|i: int, j: int| 0 <= i < e.len() && 0 <= j < e.len() && i != j ==> e[i].symbol@ != e[j].symbol@
}

/// The mapping from symbols to updates that a list with distinct symbols denotes.
pub open spec fn items_map(e: Seq<BarUpdate>) -> Map<Seq<char>, BarUpdate> {
    Map::new(
        |k: Seq<char>| exists|i: int| symbol_at(e, k, i),
        |k: Seq<char>| e[choose|i: int| symbol_at(e, k, i)],
    )
}

/// In a list with distinct symbols, the update stored under a symbol is the one at its position.
proof fn lemma_items_map_at(e: Seq<BarUpdate>, i: int)
    requires
        symbols_unique(e),
        0 <= i < e.len(),
    ensures
        items_map(e).contains_key(e[i].symbol@),
        items_map(e)[e[i].symbol@] == e[i],
{
    let k = e[i].symbol@;
    assert(symbol_at(e, k, i));
    let c = choose|j: int| symbol_at(e, k, j);
    assert(c == i);
}

impl PartialBars {
    /// Symbols are distinct.
    pub closed spec fn wf(&self) -> bool {
        symbols_unique(self.items@)
    }

    /// The pending partial candle of each symbol.
    pub closed spec fn view(&self) -> Map<Seq<char>, BarUpdate> {
        items_map(self.items@)
    }

    /// No pending candles.
    pub fn new() -> (m: PartialBars)
        ensures
            m.wf(),
            m.view() == Map::<Seq<char>, BarUpdate>::empty(),
    {
        let m = PartialBars { items: Vec::new() };
        assert(m.view() =~= Map::<Seq<char>, BarUpdate>::empty());
        m
    }

    fn find(&self, k: &str) -> (r: Option<usize>)
        ensures
            match r {
                Some(i) => symbol_at(self.items@, k@, i as int),
                None => forall|i: int| !symbol_at(self.items@, k@, i),
            },
    {
        let mut i: usize = 0;
        while i < self.items.len()
            invariant
                i <= self.items.len(),
                forall|j: int| 0 <= j < i ==> !symbol_at(self.items@, k@, j),
            decreases self.items.len() - i,
        {
            if str_eq(self.items[i].symbol.as_str(), k) {
                return Some(i);
            }
            i = i + 1;
        }
        None
    }

    /// The pending candle of a symbol.
    pub fn get(&self, k: &str) -> (r: Option<BarUpdate>)
        requires
            self.wf(),
        ensures
            match r {
                Some(u) => self.view().contains_key(k@) && self.view()[k@] == u,
                None => !self.view().contains_key(k@),
            },
    {
        match self.find(k) {
            Some(i) => {
                proof {
                    lemma_items_map_at(self.items@, i as int);
                }
                Some(self.items[i].duplicate())
            },
            None => None,
        }
    }

    /// Record `u` as the pending candle of its symbol.
    pub fn insert(&mut self, u: BarUpdate)
        requires
            old(self).wf(),
        ensures
            final(self).wf(),
            final(self).view() == old(self).view().insert(u.symbol@, u),
    {
        let ghost old_e = self.items@;
        let ghost k = u.symbol@;
        let ghost uu = u;
        let ghost mut pos: int = 0;
        match self.find(u.symbol.as_str()) {
            Some(i) => {
                self.items.set(i, u);
                proof {
                    pos = i as int;
                }
            },
            None => {
                self.items.push(u);
                proof {
                    pos = old_e.len() as int;
                }
            },
        }
        proof {
            let e = self.items@;
            assert(e[pos] == uu);
            assert forall|j: int| 0 <= j < old_e.len() && j != pos implies e[j] == old_e[j] && !symbol_at(old_e, k, j) by {
                if pos < old_e.len() {
                    assert(symbol_at(old_e, k, pos));
                }
            }
            assert forall|a: int, b: int| 0 <= a < e.len() && 0 <= b < e.len() && a != b implies e[a].symbol@ != e[b].symbol@ by {
                if e[a].symbol@ == e[b].symbol@ {
                    if e[a].symbol@ == k {
                        if a < old_e.len() && e[a] == old_e[a] {
                            assert(symbol_at(old_e, k, a));
                        }
                        if b < old_e.len() && e[b] == old_e[b] {
                            assert(symbol_at(old_e, k, b));
                        }
                    } else {
                        assert(e[a] == old_e[a] && e[b] == old_e[b]);
                    }
                }
            }
            let target = items_map(old_e).insert(k, u);
            assert forall|q: Seq<char>| #[trigger] items_map(e).contains_key(q) == target.contains_key(q) by {
                if items_map(e).contains_key(q) {
                    let j = choose|j: int| symbol_at(e, q, j);
                    if q != k {
                        assert(e[j] == old_e[j]);
                        assert(symbol_at(old_e, q, j));
                    }
                }
                if items_map(old_e).contains_key(q) {
                    let j = choose|j: int| symbol_at(old_e, q, j);
                    if q != k {
                        assert(e[j] == old_e[j]);
                        assert(symbol_at(e, q, j));
                    }
                }
                if q == k {
                    let j = if exists|j: int| symbol_at(old_e, k, j) { choose|j: int| symbol_at(old_e, k, j) } else { old_e.len() as int };
                    assert(symbol_at(e, q, j) || symbol_at(e, q, old_e.len() as int));
                }
            }
            assert forall|q: Seq<char>| items_map(e).contains_key(q) implies items_map(e)[q] == target[q] by {
                let j = choose|j: int| symbol_at(e, q, j);
                lemma_items_map_at(e, j);
                if q == k {
                    assert(j == pos);
                }
                if q != k {
                    assert(e[j] == old_e[j]);
                    lemma_items_map_at(old_e, j);
                }
            }
            assert(items_map(e) =~= target);
        }
    }

    /// Forget the pending candle of a symbol, returning it.
    pub fn remove(&mut self, k: &str) -> (r: Option<BarUpdate>)
        requires
            old(self).wf(),
        ensures
            final(self).wf(),
            final(self).view() == old(self).view().remove(k@),
            match r {
                Some(u) => old(self).view().contains_key(k@) && old(self).view()[k@] == u,
                None => !old(self).view().contains_key(k@),
            },
    {
        let ghost old_e = self.items@;
        match self.find(k) {
            None => {
                assert(items_map(old_e) =~= items_map(old_e).remove(k@));
                None
            },
            Some(i) => {
                proof {
                    lemma_items_map_at(old_e, i as int);
                }
                let u = self.items.remove(i);
                proof {
                    let e = self.items@;
                    assert(e == old_e.remove(i as int));
                    assert forall|a: int, b: int| 0 <= a < e.len() && 0 <= b < e.len() && a != b implies e[a].symbol@ != e[b].symbol@ by {
                        let oa = if a < i { a } else { a + 1 };
                        let ob = if b < i { b } else { b + 1 };
                        assert(e[a] == old_e[oa] && e[b] == old_e[ob]);
                    }
                    let target = items_map(old_e).remove(k@);
                    assert forall|q: Seq<char>| #[trigger] items_map(e).contains_key(q) == target.contains_key(q) by {
                        if items_map(e).contains_key(q) {
                            let j = choose|j: int| symbol_at(e, q, j);
                            let oj = if j < i { j } else { j + 1 };
                            assert(e[j] == old_e[oj]);
                            assert(symbol_at(old_e, q, oj));
                            assert(oj != i);
                        }
                        if target.contains_key(q) {
                            let j = choose|j: int| symbol_at(old_e, q, j);
                            assert(j != i);
                            let nj = if j < i { j } else { j - 1 };
                            assert(e[nj] == old_e[j]);
                            assert(symbol_at(e, q, nj));
                        }
                    }
                    assert forall|q: Seq<char>| items_map(e).contains_key(q) implies items_map(e)[q] == target[q] by {
                        let j = choose|j: int| symbol_at(e, q, j);
                        lemma_items_map_at(e, j);
                        let oj = if j < i { j } else { j + 1 };
                        assert(e[j] == old_e[oj]);
                        lemma_items_map_at(old_e, oj);
                    }
                    assert(items_map(e) =~= target);
                }
                Some(u)
            },
        }
    }
}

/// The candle marked as final.
pub open spec fn finalized(u: BarUpdate) -> BarUpdate {
    BarUpdate { is_final: true, ..u }
}

/// The queue and pending candles after one update.
///
/// * An update older than its symbol's pending candle is dropped.
/// * An update for the pending candle's own period replaces it (or clears it
///   when final) and is queued.
/// * A newer update first queues the pending candle again, now final, then
///   itself; it becomes the pending candle unless it is final.
/// * Without a pending candle the update is queued, and kept pending unless final.
pub open spec fn queue_step(
    queued: Seq<BarUpdate>,
    partial: Map<Seq<char>, BarUpdate>,
    u: BarUpdate,
) -> (Seq<BarUpdate>, Map<Seq<char>, BarUpdate>) {
    let k = u.symbol@;
    if partial.contains_key(k) {
        let prev = partial[k];
        if u.open_ts < prev.open_ts {
            (queued, partial)
        } else if u.open_ts == prev.open_ts {
            (queued.push(u), if u.is_final { partial.remove(k) } else { partial.insert(k, u) })
        } else {
            (queued.push(finalized(prev)).push(u), if u.is_final { partial.remove(k) } else { partial.insert(k, u) })
        }
    } else {
        (queued.push(u), if u.is_final { partial } else { partial.insert(k, u) })
    }
}

/// Queue one update in chronological order (see [`queue_step`]).
pub fn queue_chronological_update(queued: &mut VecDeque<BarUpdate>, partial: &mut PartialBars, update: BarUpdate)
    requires
        old(partial).wf(),
    ensures
        final(partial).wf(),
        (final(queued)@, final(partial).view()) == queue_step(old(queued)@, old(partial).view(), update),
{
    let previous = partial.get(update.symbol.as_str());
    match previous {
        Some(prev) => {
            if update.open_ts < prev.open_ts {
                return;
            }
            if update.open_ts == prev.open_ts {
                if update.is_final {
                    let _ = partial.remove(update.symbol.as_str());
                } else {
                    partial.insert(update.duplicate());
                }
                queued.push_back(update);
                return;
            }
            match partial.remove(update.symbol.as_str()) {
                Some(mut p) => {
                    p.is_final = true;
                    queued.push_back(p);
                },
                None => {},
            }
            if !update.is_final {
                partial.insert(update.duplicate());
            }
            queued.push_back(update);
        },
        None => {
            if !update.is_final {
                partial.insert(update.duplicate());
            }
            queued.push_back(update);
        },
    }
}

// ───────────────────────────── laws ─────────────────────────────

/// Every update that is not older than its symbol's pending candle is
/// delivered: the queue keeps what it held and ends with the update; before
/// it, at most the pending candle of an earlier period is re-emitted as final.
/// Afterwards the symbol's pending candle is the update when it is partial,
/// and there is none when it is final. An update older than the pending
/// candle changes nothing.
pub proof fn law_current_updates_delivered(queued: Seq<BarUpdate>, partial: Map<Seq<char>, BarUpdate>, u: BarUpdate)
    ensures
        ({
            let k = u.symbol@;
            let (q2, p2) = queue_step(queued, partial, u);
            if partial.contains_key(k) && u.open_ts < partial[k].open_ts {
                q2 == queued && p2 == partial
            } else {
                &&& queued.len() < q2.len() <= queued.len() + 2
                &&& q2.subrange(0, queued.len() as int) == queued
                &&& q2.last() == u
                &&& (q2.len() == queued.len() + 2 ==> partial.contains_key(k) && partial[k].open_ts < u.open_ts
                    && q2[queued.len() as int] == (BarUpdate { is_final: true, ..partial[k] }))
                &&& (!partial.contains_key(k) || partial[k].open_ts == u.open_ts ==> q2 == queued.push(u))
                &&& (u.is_final ==> !p2.contains_key(k))
                &&& (!u.is_final ==> p2.contains_key(k) && p2[k] == u)
                &&& forall|j: Seq<char>| j != k ==> (#[trigger] p2.contains_key(j) == partial.contains_key(j))
                    && (partial.contains_key(j) ==> p2[j] == partial[j])
            }
        }),
{
    let k = u.symbol@;
    let (q2, p2) = queue_step(queued, partial, u);
    if !(partial.contains_key(k) && u.open_ts < partial[k].open_ts) {
        assert(q2.subrange(0, queued.len() as int) =~= queued);
    }
}

/// Pending candles are never final and are stored under their own symbol.
pub open spec fn pending_wf(partial: Map<Seq<char>, BarUpdate>) -> bool {
    forall|k: Seq<char>| #[trigger] partial.contains_key(k) ==> !partial[k].is_final && partial[k].symbol@ == k
}

/// Queueing keeps pending candles non-final and keyed by their own symbol.
pub proof fn law_pending_stay_partial(queued: Seq<BarUpdate>, partial: Map<Seq<char>, BarUpdate>, u: BarUpdate)
    requires
        pending_wf(partial),
    ensures
        pending_wf(queue_step(queued, partial, u).1),
{
}

/// The pending candle of a symbol never moves back in time, and updates of
/// other symbols leave it untouched.
pub proof fn law_pending_monotone(queued: Seq<BarUpdate>, partial: Map<Seq<char>, BarUpdate>, u: BarUpdate, k: Seq<char>)
    requires
        partial.contains_key(k),
        queue_step(queued, partial, u).1.contains_key(k),
    ensures
        queue_step(queued, partial, u).1[k].open_ts >= partial[k].open_ts,
        k != u.symbol@ ==> queue_step(queued, partial, u).1[k] == partial[k],
{
}

/// Every update queued for a symbol is at least as recent as that symbol's
/// pending candle was, so a replayed older candle never follows a newer one.
pub proof fn law_queued_not_older(queued: Seq<BarUpdate>, partial: Map<Seq<char>, BarUpdate>, u: BarUpdate)
    requires
        pending_wf(partial),
    ensures
        ({
            let (q2, _) = queue_step(queued, partial, u);
            forall|i: int| queued.len() <= i < q2.len() && partial.contains_key(q2[i].symbol@) ==> #[trigger] q2[i].open_ts >= partial[q2[i].symbol@].open_ts
        }),
{
}

/// An update older than its symbol's pending candle changes nothing.
pub proof fn law_stale_update_ignored(queued: Seq<BarUpdate>, partial: Map<Seq<char>, BarUpdate>, u: BarUpdate)
    requires
        partial.contains_key(u.symbol@),
        u.open_ts < partial[u.symbol@].open_ts,
    ensures
        queue_step(queued, partial, u) == (queued, partial),
{
}

/// Among the first `n` candles, `x` is the newest of its symbol: earlier
/// candles of the symbol are strictly older, later ones no newer.
pub open spec fn newest_upto(c: Seq<(String, u64)>, n: int, x: int) -> bool {
    &&& 0 <= x < n <= c.len()
    &&& forall|j: int| #![trigger c[j]] 0 <= j < x && c[j].0@ == c[x].0@ ==> c[j].1 < c[x].1
    &&& forall|j: int| #![trigger c[j]] x < j < n && c[j].0@ == c[x].0@ ==> c[j].1 <= c[x].1
}

/// Candle `x` is the one a snapshot keeps for its symbol: the first of the
/// symbol's newest candles.
pub open spec fn kept_candle(c: Seq<(String, u64)>, x: int) -> bool {
    newest_upto(c, c.len() as int, x)
}

/// Some chosen candle has symbol `s`.
pub open spec fn has_entry(c: Seq<(String, u64)>, best: Seq<usize>, s: Seq<char>) -> bool {
    exists|k: int| 0 <= k < best.len() && #[trigger] c[best[k] as int].0@ == s
}

/// Two kept candles of the same symbol are the same candle.
pub proof fn lemma_kept_unique(c: Seq<(String, u64)>, n: int, x: int, y: int)
    requires
        newest_upto(c, n, x),
        newest_upto(c, n, y),
        c[x].0@ == c[y].0@,
    ensures
        x == y,
{
    if x < y {
        assert(c[x].1 < c[y].1);
        assert(c[x].1 <= c[y].1 ==> c[y].1 <= c[x].1);
    } else if y < x {
        assert(c[y].1 < c[x].1);
    }
}

/// Whether the indices are ordered by their candles' open times.
pub open spec fn by_open_time(c: Seq<(String, u64)>, s: Seq<usize>) -> bool {
    forall|a: int, b: int| 0 <= a < b < s.len() ==> c[#[trigger] s[a] as int].1 <= c[#[trigger] s[b] as int].1
}

/// Insert `x` after every index whose candle is no newer.
fn insert_by_open_time(candles: &Vec<(String, u64)>, out: &mut Vec<usize>, x: usize)
    requires
        x < candles@.len(),
        forall|q: int| 0 <= q < old(out)@.len() ==> #[trigger] old(out)@[q] < candles@.len(),
        by_open_time(candles@, old(out)@),
        old(out)@.no_duplicates(),
        !old(out)@.contains(x),
    ensures
        forall|q: int| 0 <= q < final(out)@.len() ==> #[trigger] final(out)@[q] < candles@.len(),
        by_open_time(candles@, final(out)@),
        final(out)@.no_duplicates(),
        forall|y: usize| final(out)@.contains(y) <==> (old(out)@.contains(y) || y == x),
        final(out)@.len() == old(out)@.len() + 1,
{
    let ghost c = candles@;
    let key = candles[x].1;
    let mut pos: usize = 0;
    while pos < out.len() && candles[out[pos]].1 <= key
        invariant
            c == candles@,
            pos <= out.len(),
            key == c[x as int].1,
            forall|q: int| 0 <= q < out@.len() ==> #[trigger] out@[q] < candles@.len(),
            forall|a: int| 0 <= a < pos ==> c[#[trigger] out@[a] as int].1 <= key,
        decreases out.len() - pos,
    {
        pos = pos + 1;
    }
    let ghost old_out = out@;
    proof {
        old_out.insert_ensures(pos as int, x);
    }
    out.insert(pos, x);
    proof {
        let n = out@;
        assert forall|q: int| 0 <= q < n.len() implies #[trigger] n[q] < candles@.len() by {
            if q < pos {
                assert(n[q] == old_out[q]);
            } else if q > pos {
                assert(n[q] == old_out[q - 1]);
            }
        }
        assert forall|a: int, b: int| 0 <= a < b < n.len() implies c[#[trigger] n[a] as int].1 <= c[#[trigger] n[b] as int].1 by {
            if b < pos {
                assert(n[a] == old_out[a] && n[b] == old_out[b]);
            } else if b == pos {
                assert(n[a] == old_out[a]);
            } else if a < pos {
                assert(n[a] == old_out[a] && n[b] == old_out[b - 1]);
            } else if a == pos {
                assert(n[b] == old_out[b - 1]);
                assert(c[old_out[pos as int] as int].1 > key);
            } else {
                assert(n[a] == old_out[a - 1] && n[b] == old_out[b - 1]);
            }
        }
        assert forall|y: usize| n.contains(y) <==> (old_out.contains(y) || y == x) by {
            if n.contains(y) {
                let q = choose|q: int| 0 <= q < n.len() && n[q] == y;
                if q < pos {
                    assert(old_out[q] == y);
                } else if q > pos {
                    assert(old_out[q - 1] == y);
                }
            }
            if old_out.contains(y) {
                let q = choose|q: int| 0 <= q < old_out.len() && old_out[q] == y;
                if q < pos {
                    assert(n[q] == y);
                } else {
                    assert(n[q + 1] == y);
                }
            }
            if y == x {
                assert(n[pos as int] == y);
            }
        }
        assert forall|a: int, b: int| 0 <= a < n.len() && 0 <= b < n.len() && a != b implies n[a] != n[b] by {
            if a != pos && b != pos {
                let ia = if a < pos { a } else { a - 1 };
                let ib = if b < pos { b } else { b - 1 };
                assert(n[a] == old_out[ia] && n[b] == old_out[ib]);
            } else if a == pos {
                let ib = if b < pos { b } else { b - 1 };
                assert(n[b] == old_out[ib]);
                assert(old_out.contains(n[b]));
            } else {
                let ia = if a < pos { a } else { a - 1 };
                assert(n[a] == old_out[ia]);
                assert(old_out.contains(n[a]));
            }
        }
    }
}

/// The indices ordered by their candles' open times (equal times keep their order).
fn sort_by_open_time(candles: &Vec<(String, u64)>, idx: &Vec<usize>) -> (r: Vec<usize>)
    requires
        forall|k: int| 0 <= k < idx@.len() ==> #[trigger] idx@[k] < candles@.len(),
        idx@.no_duplicates(),
    ensures
        forall|y: usize| r@.contains(y) <==> idx@.contains(y),
        r@.no_duplicates(),
        by_open_time(candles@, r@),
{
    let mut out: Vec<usize> = Vec::new();
    let mut m: usize = 0;
    while m < idx.len()
        invariant
            m <= idx.len(),
            forall|k: int| 0 <= k < idx@.len() ==> #[trigger] idx@[k] < candles@.len(),
            idx@.no_duplicates(),
            forall|q: int| 0 <= q < out@.len() ==> #[trigger] out@[q] < candles@.len(),
            by_open_time(candles@, out@),
            out@.no_duplicates(),
            forall|y: usize| out@.contains(y) <==> idx@.subrange(0, m as int).contains(y),
        decreases idx.len() - m,
    {
        let x = idx[m];
        proof {
            assert(!out@.contains(x)) by {
                if idx@.subrange(0, m as int).contains(x) {
                    let k = choose|k: int| 0 <= k < m && idx@.subrange(0, m as int)[k] == x;
                    assert(idx@[k] == idx@[m as int]);
                }
            }
        }
        insert_by_open_time(candles, &mut out, x);
        proof {
            assert forall|y: usize| out@.contains(y) <==> idx@.subrange(0, m + 1).contains(y) by {
                let pre = idx@.subrange(0, m as int);
                let nxt = idx@.subrange(0, m + 1);
                if pre.contains(y) {
                    let k = choose|k: int| 0 <= k < pre.len() && pre[k] == y;
                    assert(nxt[k] == y);
                }
                if nxt.contains(y) {
                    let k = choose|k: int| 0 <= k < nxt.len() && nxt[k] == y;
                    if k < m {
                        assert(pre[k] == y);
                    }
                }
                if y == x {
                    assert(nxt[m as int] == y);
                }
            }
        }
        m = m + 1;
    }
    assert(idx@.subrange(0, idx.len() as int) =~= idx@);
    out
}

/// The candles a snapshot starts from, by index: the newest candle of each
/// symbol (the first one when several are equally new), ordered by open time.
pub fn latest_per_symbol(candles: &Vec<(String, u64)>) -> (r: Vec<usize>)
    ensures
        forall|q: int| 0 <= q < r@.len() ==> kept_candle(candles@, #[trigger] r@[q] as int),
        forall|x: int| kept_candle(candles@, x) ==> exists|q: int| 0 <= q < r@.len() && #[trigger] r@[q] == x,
        r@.no_duplicates(),
        by_open_time(candles@, r@),
{
    let ghost c = candles@;
    let mut best: Vec<usize> = Vec::new();
    let mut i: usize = 0;
    while i < candles.len()
        invariant
            c == candles@,
            i <= candles.len(),
            forall|k: int| 0 <= k < best@.len() ==> #[trigger] best@[k] < i && newest_upto(c, i as int, best@[k] as int),
            forall|j: int| 0 <= j < i ==> has_entry(c, best@, #[trigger] c[j].0@),
            forall|k1: int, k2: int| 0 <= k1 < k2 < best@.len() ==> c[#[trigger] best@[k1] as int].0@ != c[#[trigger] best@[k2] as int].0@,
        decreases candles.len() - i,
    {
        let mut k: usize = 0;
        let mut found = false;
        while k < best.len() && !found
            invariant
                c == candles@,
                i < candles.len(),
                k <= best.len(),
                forall|k2: int| 0 <= k2 < best@.len() ==> #[trigger] best@[k2] < i,
                !found ==> forall|p: int| 0 <= p < k ==> #[trigger] c[best@[p] as int].0@ != c[i as int].0@,
                found ==> k < best.len() && c[best@[k as int] as int].0@ == c[i as int].0@,
            decreases best.len() - k + (if found { 0int } else { 1int }),
        {
            if crate::text::str_eq(candles[best[k]].0.as_str(), candles[i].0.as_str()) {
                found = true;
            } else {
                k = k + 1;
            }
        }
        if found {
            let x = best[k];
            if candles[i].1 > candles[x].1 {
                let ghost old_best = best@;
                best.set(k, i);
                proof {
                    assert forall|kk: int| 0 <= kk < best@.len() implies #[trigger] best@[kk] < i + 1 && newest_upto(
                        c,
                        i + 1,
                        best@[kk] as int,
                    ) by {
                        if kk == k {
                            assert forall|j: int| #![trigger c[j]] 0 <= j < i && c[j].0@ == c[i as int].0@ implies c[j].1 < c[i as int].1 by {
                                if j < x {
                                } else if j == x {
                                } else {
                                }
                            }
                        } else {
                            let y = old_best[kk] as int;
                            assert(c[y].0@ != c[x as int].0@);
                        }
                    }
                    assert forall|j: int| 0 <= j < i + 1 implies has_entry(c, best@, #[trigger] c[j].0@) by {
                        if j < i {
                            assert(has_entry(c, old_best, c[j].0@));
                            let kk = choose|kk: int| 0 <= kk < old_best.len() && #[trigger] c[old_best[kk] as int].0@ == c[j].0@;
                            if kk == k {
                                assert(c[best@[kk] as int].0@ == c[j].0@);
                            } else {
                                assert(best@[kk] == old_best[kk]);
                            }
                        } else {
                            assert(c[best@[k as int] as int].0@ == c[j].0@);
                        }
                    }
                    assert forall|k1: int, k2: int| 0 <= k1 < k2 < best@.len() implies c[#[trigger] best@[k1] as int].0@ != c[#[trigger] best@[k2] as int].0@ by {
                        assert(c[old_best[k1] as int].0@ != c[old_best[k2] as int].0@);
                    }
                }
            } else {
                proof {
                    assert forall|kk: int| 0 <= kk < best@.len() implies #[trigger] best@[kk] < i + 1 && newest_upto(
                        c,
                        i + 1,
                        best@[kk] as int,
                    ) by {
                        if kk != k {
                            assert(c[best@[kk] as int].0@ != c[x as int].0@);
                        }
                    }
                    assert forall|j: int| 0 <= j < i + 1 implies has_entry(c, best@, #[trigger] c[j].0@) by {
                        if j == i {
                            assert(c[best@[k as int] as int].0@ == c[j].0@);
                        }
                    }
                }
            }
        } else {
            let ghost old_best = best@;
            best.push(i);
            proof {
                assert forall|kk: int| 0 <= kk < best@.len() implies #[trigger] best@[kk] < i + 1 && newest_upto(
                    c,
                    i + 1,
                    best@[kk] as int,
                ) by {
                    if kk < old_best.len() {
                        assert(best@[kk] == old_best[kk]);
                        assert(c[old_best[kk] as int].0@ != c[i as int].0@);
                    } else {
                        assert forall|j: int| #![trigger c[j]] 0 <= j < i && c[j].0@ == c[i as int].0@ implies false by {
                            assert(has_entry(c, old_best, c[j].0@));
                            let p = choose|p: int| 0 <= p < old_best.len() && #[trigger] c[old_best[p] as int].0@ == c[j].0@;
                            assert(c[old_best[p] as int].0@ != c[i as int].0@);
                        }
                    }
                }
                assert forall|j: int| 0 <= j < i + 1 implies has_entry(c, best@, #[trigger] c[j].0@) by {
                    if j < i {
                        assert(has_entry(c, old_best, c[j].0@));
                        let p = choose|p: int| 0 <= p < old_best.len() && #[trigger] c[old_best[p] as int].0@ == c[j].0@;
                        assert(best@[p] == old_best[p]);
                    } else {
                        assert(best@[old_best.len() as int] == i);
                    }
                }
                assert forall|k1: int, k2: int| 0 <= k1 < k2 < best@.len() implies c[#[trigger] best@[k1] as int].0@ != c[#[trigger] best@[k2] as int].0@ by {
                    if k2 < old_best.len() {
                        assert(c[old_best[k1] as int].0@ != c[old_best[k2] as int].0@);
                    } else {
                        assert(best@[k1] == old_best[k1]);
                    }
                }
            }
        }
        i = i + 1;
    }
    proof {
        assert forall|x: int, y: int| 0 <= x < best@.len() && 0 <= y < best@.len() && x != y implies best@[x] != best@[y] by {
            if x < y {
                assert(c[best@[x] as int].0@ != c[best@[y] as int].0@);
            } else {
                assert(c[best@[y] as int].0@ != c[best@[x] as int].0@);
            }
        }
    }
    let out = sort_by_open_time(candles, &best);
    proof {
        assert forall|q: int| 0 <= q < out@.len() implies kept_candle(candles@, #[trigger] out@[q] as int) by {
            assert(out@.contains(out@[q]));
            assert(best@.contains(out@[q]));
            let k = choose|k: int| 0 <= k < best@.len() && best@[k] == out@[q];
            assert(newest_upto(c, c.len() as int, best@[k] as int));
        }
        assert forall|x: int| kept_candle(candles@, x) implies exists|q: int| 0 <= q < out@.len() && #[trigger] out@[q] == x by {
            assert(has_entry(c, best@, c[x].0@));
            let k = choose|k: int| 0 <= k < best@.len() && #[trigger] c[best@[k] as int].0@ == c[x].0@;
            lemma_kept_unique(c, c.len() as int, x, best@[k] as int);
            assert(best@.contains(best@[k]));
            assert(out@.contains(best@[k]));
        }
    }
    out
}

} // verus!
