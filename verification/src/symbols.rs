//! Canonical and provider-specific ticker symbols.
//!
//! A canonical symbol is provider independent (`BTC-USD`); each provider
//! names the same instrument its own way (`BTCUSD`, `BTC/USD`, `XBT/USD`).

use vstd::prelude::*;
use crate::models::Provider;
use crate::text::{
    chars_of, concat, concat3, has_prefix, lower, owned, remove_chars, remove_each, replace_chars,
    replace_each, starts_with_str, str_eq, to_lower, to_upper, upper,
};

verus! {

/// The canonical symbol: `base-quote` when the base is known, else the provider symbol.
pub open spec fn canonical_symbol_spec(symbol: Seq<char>, base: Option<Seq<char>>, quote: Seq<char>) -> Seq<char> {
    match base {
        Some(b) => b + seq!['-'] + quote,
        None => symbol,
    }
}

/// The view of an optional string.
pub open spec fn opt_view(s: Option<String>) -> Option<Seq<char>> {
    match s {
        Some(v) => Some(v@),
        None => None,
    }
}

/// Create the canonical (provider independent) symbol.
pub fn canonical_symbol(symbol: &str, base: &Option<String>, quote: &String) -> (r: String)
    ensures
        r@ == canonical_symbol_spec(symbol@, opt_view(*base), quote@),
{
    match base {
        Some(b) => {
            let r = concat3(b.as_str(), "-", quote.as_str());
            proof {
                reveal_strlit("-");
            }
            r
        },
        None => owned(symbol),
    }
}

/// Separator characters that may appear between the two legs of a symbol.
pub open spec fn all_separators() -> Seq<char> {
    seq!['-', '/', '_']
}

/// `BTC-USD` → `btcusd`: separators removed, ASCII lower-case.
pub open spec fn compact_spec(s: Seq<char>) -> Seq<char> {
    lower(remove_each(s, all_separators()))
}

/// `btc/usd` → `BTC-USD`: slashes and underscores become dashes, ASCII upper-case.
pub open spec fn dash_spec(s: Seq<char>) -> Seq<char> {
    upper(replace_each(s, seq!['/', '_'], '-'))
}

/// `btc-usd` → `BTC/USD`: dashes and underscores become slashes, ASCII upper-case.
pub open spec fn slash_spec(s: Seq<char>) -> Seq<char> {
    upper(replace_each(s, seq!['-', '_'], '/'))
}

/// The key under which a provider reports the symbol in its stream messages.
pub open spec fn provider_key_spec(p: Provider, s: Seq<char>) -> Seq<char> {
    match p {
        Provider::Binance => upper(remove_each(s, all_separators())),
        Provider::Coinbase => dash_spec(s),
        Provider::Kraken => slash_spec(s),
        Provider::Yahoo => upper(s),
    }
}

/// Binance stream form: separators removed, lower-case.
pub fn compact_symbol(symbol: &str) -> (r: String)
    ensures
        r@ == compact_spec(symbol@),
{
    let seps = vec!['-', '/', '_'];
    assert(seps@ == all_separators());
    let removed = remove_chars(symbol, &seps);
    to_lower(removed.as_str())
}

/// Coinbase product form: dash separated, upper-case.
pub fn dash_symbol(symbol: &str) -> (r: String)
    ensures
        r@ == dash_spec(symbol@),
{
    let seps = vec!['/', '_'];
    assert(seps@ == seq!['/', '_']);
    let replaced = replace_chars(symbol, &seps, '-');
    to_upper(replaced.as_str())
}

/// Kraken stream form: slash separated, upper-case.
pub fn slash_symbol(symbol: &str) -> (r: String)
    ensures
        r@ == slash_spec(symbol@),
{
    let seps = vec!['-', '_'];
    assert(seps@ == seq!['-', '_']);
    let replaced = replace_chars(symbol, &seps, '/');
    to_upper(replaced.as_str())
}

/// The key under which `provider` reports `symbol` in its stream messages.
pub fn provider_symbol_key(provider: Provider, symbol: &str) -> (r: String)
    ensures
        r@ == provider_key_spec(provider, symbol@),
{
    match provider {
        Provider::Binance => {
            let seps = vec!['-', '/', '_'];
            assert(seps@ == all_separators());
            let removed = remove_chars(symbol, &seps);
            to_upper(removed.as_str())
        },
        Provider::Coinbase => dash_symbol(symbol),
        Provider::Kraken => slash_symbol(symbol),
        Provider::Yahoo => to_upper(symbol),
    }
}

// ───────────────────────────── symbol map ─────────────────────────────

/// A finite map from provider keys to canonical symbols.
pub struct SymbolMap {
    entries: Vec<(String, String)>,
}

/// The keys of the entries are pairwise distinct.
pub open spec fn keys_unique(e: Seq<(String, String)>) -> bool {
    forall|i: int, j: int| 0 <= i < e.len() && 0 <= j < e.len() && i != j ==> e[i].0@ != e[j].0@
}

/// The entry index holding key `k`, if any.
pub open spec fn has_key_at(e: Seq<(String, String)>, k: Seq<char>, i: int) -> bool {
    0 <= i < e.len() && e[i].0@ == k
}

/// The mapping that a list of entries with distinct keys denotes.
pub open spec fn entries_map(e: Seq<(String, String)>) -> Map<Seq<char>, Seq<char>> {
    Map::new(
        |k: Seq<char>| exists|i: int| has_key_at(e, k, i),
        |k: Seq<char>| e[choose|i: int| has_key_at(e, k, i)].1@,
    )
}

impl SymbolMap {
    /// The keys are distinct.
    pub closed spec fn wf(&self) -> bool {
        keys_unique(self.entries@)
    }

    /// The mapping from provider keys to canonical symbols.
    pub closed spec fn view(&self) -> Map<Seq<char>, Seq<char>> {
        entries_map(self.entries@)
    }

    /// An empty map.
    pub fn new() -> (m: SymbolMap)
        ensures
            m.wf(),
            m.view() == Map::<Seq<char>, Seq<char>>::empty(),
    {
        let m = SymbolMap { entries: Vec::new() };
        assert(m.view() =~= Map::<Seq<char>, Seq<char>>::empty());
        m
    }

    /// Number of keys.
    pub fn len(&self) -> (n: usize)
        requires
            self.wf(),
        ensures
            n == self.view().dom().len(),
    {
        proof {
            self.lemma_dom_len();
        }
        self.entries.len()
    }

    proof fn lemma_dom_len(&self)
        requires
            self.wf(),
        ensures
            self.view().dom().len() == self.entries@.len(),
            self.view().dom().finite(),
        decreases self.entries@.len(),
    {
        let e = self.entries@;
        let keys = Seq::new(e.len(), |i: int| e[i].0@);
        assert forall|i: int, j: int| 0 <= i < keys.len() && 0 <= j < keys.len() && i != j implies keys[i] != keys[j] by {}
        keys.unique_seq_to_set();
        assert(self.view().dom() =~= keys.to_set()) by {
            assert forall|k: Seq<char>| self.view().dom().contains(k) implies keys.to_set().contains(k) by {
                let i = choose|i: int| has_key_at(e, k, i);
                assert(keys[i] == k);
            }
            assert forall|k: Seq<char>| keys.to_set().contains(k) implies self.view().dom().contains(k) by {
                let i = choose|i: int| 0 <= i < keys.len() && keys[i] == k;
                assert(has_key_at(e, k, i));
            }
        }
    }

    /// Index of the entry with key `k`, if any.
    fn find(&self, k: &str) -> (r: Option<usize>)
        requires
            self.wf(),
        ensures
            match r {
                Some(i) => has_key_at(self.entries@, k@, i as int),
                None => forall|i: int| !has_key_at(self.entries@, k@, i),
            },
    {
        let mut i: usize = 0;
        while i < self.entries.len()
            invariant
                i <= self.entries.len(),
                forall|j: int| 0 <= j < i ==> !has_key_at(self.entries@, k@, j),
            decreases self.entries.len() - i,
        {
            if str_eq(self.entries[i].0.as_str(), k) {
                return Some(i);
            }
            i = i + 1;
        }
        None
    }

    /// The canonical symbol stored under `k`.
    pub fn get(&self, k: &str) -> (r: Option<String>)
        requires
            self.wf(),
        ensures
            match r {
                Some(v) => self.view().contains_key(k@) && self.view()[k@] == v@,
                None => !self.view().contains_key(k@),
            },
    {
        match self.find(k) {
            Some(i) => {
                let ghost e = self.entries@;
                proof {
                    let c = choose|j: int| has_key_at(e, k@, j);
                    assert(c == i);
                }
                Some(self.entries[i].1.clone())
            },
            None => None,
        }
    }

    /// Insert or overwrite the value stored under `k`.
    pub fn insert(&mut self, k: String, v: String)
        requires
            old(self).wf(),
        ensures
            final(self).wf(),
            final(self).view() == old(self).view().insert(k@, v@),
    {
        let ghost old_e = self.entries@;
        match self.find(k.as_str()) {
            Some(i) => {
                let ghost kv = k@;
                let ghost vv = v@;
                self.entries.set(i, (k, v));
                proof {
                    let e = self.entries@;
                    assert(e == old_e.update(i as int, (e[i as int].0, e[i as int].1)));
                    assert forall|a: int, b: int| 0 <= a < e.len() && 0 <= b < e.len() && a != b implies e[a].0@ != e[b].0@ by {
                        if a != i && b != i {
                            assert(e[a] == old_e[a] && e[b] == old_e[b]);
                        } else if a == i {
                            assert(e[b] == old_e[b]);
                            assert(old_e[i as int].0@ == kv);
                        } else {
                            assert(e[a] == old_e[a]);
                            assert(old_e[i as int].0@ == kv);
                        }
                    }
                    self.lemma_update_view(old_e, i as int, kv, vv);
                }
            },
            None => {
                let ghost kv = k@;
                let ghost vv = v@;
                self.entries.push((k, v));
                proof {
                    let e = self.entries@;
                    assert forall|a: int, b: int| 0 <= a < e.len() && 0 <= b < e.len() && a != b implies e[a].0@ != e[b].0@ by {
                        if a < old_e.len() && b < old_e.len() {
                            assert(e[a] == old_e[a] && e[b] == old_e[b]);
                        } else if a == old_e.len() {
                            assert(e[b] == old_e[b]);
                            assert(!has_key_at(old_e, kv, b));
                        } else {
                            assert(e[a] == old_e[a]);
                            assert(!has_key_at(old_e, kv, a));
                        }
                    }
                    assert(self.view() =~= entries_map(old_e).insert(kv, vv)) by {
                        assert forall|q: Seq<char>| #[trigger] self.view().contains_key(q) == entries_map(old_e).insert(kv, vv).contains_key(q) by {
                            if self.view().contains_key(q) {
                                let j = choose|j: int| has_key_at(e, q, j);
                                if j < old_e.len() {
                                    assert(has_key_at(old_e, q, j));
                                }
                            }
                            if entries_map(old_e).contains_key(q) {
                                let j = choose|j: int| has_key_at(old_e, q, j);
                                assert(has_key_at(e, q, j));
                            }
                            if q == kv {
                                assert(has_key_at(e, q, old_e.len() as int));
                            }
                        }
                        assert forall|q: Seq<char>| self.view().contains_key(q) implies self.view()[q] == entries_map(old_e).insert(kv, vv)[q] by {
                            let j = choose|j: int| has_key_at(e, q, j);
                            if q == kv {
                                if j < old_e.len() {
                                    assert(e[j] == old_e[j]);
                                    assert(has_key_at(old_e, kv, j));
                                }
                                assert(j == old_e.len());
                            } else {
                                assert(has_key_at(old_e, q, j));
                                let j2 = choose|j2: int| has_key_at(old_e, q, j2);
                                assert(j2 == j);
                            }
                        }
                    }
                }
            },
        }
    }

    proof fn lemma_update_view(&self, old_e: Seq<(String, String)>, i: int, kv: Seq<char>, vv: Seq<char>)
        requires
            keys_unique(old_e),
            keys_unique(self.entries@),
            0 <= i < old_e.len(),
            old_e[i].0@ == kv,
            self.entries@.len() == old_e.len(),
            self.entries@[i].0@ == kv,
            self.entries@[i].1@ == vv,
            forall|j: int| 0 <= j < old_e.len() && j != i ==> self.entries@[j] == old_e[j],
        ensures
            self.view() == entries_map(old_e).insert(kv, vv),
    {
        let e = self.entries@;
        assert forall|q: Seq<char>| #[trigger] self.view().contains_key(q) == entries_map(old_e).insert(kv, vv).contains_key(q) by {
            if self.view().contains_key(q) {
                let j = choose|j: int| has_key_at(e, q, j);
                if j != i {
                    assert(has_key_at(old_e, q, j));
                }
            }
            if entries_map(old_e).contains_key(q) {
                let j = choose|j: int| has_key_at(old_e, q, j);
                if j != i {
                    assert(has_key_at(e, q, j));
                } else {
                    assert(has_key_at(e, q, i));
                }
            }
            if q == kv {
                assert(has_key_at(e, q, i));
            }
        }
        assert forall|q: Seq<char>| self.view().contains_key(q) implies self.view()[q] == entries_map(old_e).insert(kv, vv)[q] by {
            let j = choose|j: int| has_key_at(e, q, j);
            if q == kv {
                assert(j == i);
            } else {
                assert(j != i);
                assert(has_key_at(old_e, q, j));
                let j2 = choose|j2: int| has_key_at(old_e, q, j2);
                assert(j2 == j);
            }
        }
        assert(self.view() =~= entries_map(old_e).insert(kv, vv));
    }
}

/// The alias keys Kraken may use for a slash-separated native key.
pub open spec fn kraken_btc_alias(native: Seq<char>) -> Option<Seq<char>> {
    if has_prefix(native, "BTC/"@) {
        Some("XBT/"@ + native.subrange(4, native.len() as int))
    } else if has_prefix(native, "XBT/"@) {
        Some("BTC/"@ + native.subrange(4, native.len() as int))
    } else {
        None
    }
}

/// The alias key for the DOGE ticker, which Kraken calls XDG.
pub open spec fn kraken_doge_alias(native: Seq<char>) -> Option<Seq<char>> {
    if has_prefix(native, "DOGE/"@) {
        Some("XDG/"@ + native.subrange(5, native.len() as int))
    } else if has_prefix(native, "XDG/"@) {
        Some("DOGE/"@ + native.subrange(4, native.len() as int))
    } else {
        None
    }
}

/// Insert `value` under an optional key.
pub open spec fn insert_opt(m: Map<Seq<char>, Seq<char>>, k: Option<Seq<char>>, value: Seq<char>) -> Map<Seq<char>, Seq<char>> {
    match k {
        Some(key) => m.insert(key, value),
        None => m,
    }
}

/// The map after registering one requested symbol.
pub open spec fn add_symbol(p: Provider, m: Map<Seq<char>, Seq<char>>, symbol: Seq<char>) -> Map<Seq<char>, Seq<char>> {
    let canonical = dash_spec(symbol);
    let native = provider_key_spec(p, symbol);
    let m1 = m.insert(native, canonical);
    if p == Provider::Kraken {
        insert_opt(insert_opt(m1, kraken_btc_alias(native), canonical), kraken_doge_alias(native), canonical)
    } else {
        m1
    }
}

/// The map from provider keys to canonical symbols for the requested symbols, in order.
pub open spec fn canonical_map_spec(p: Provider, symbols: Seq<Seq<char>>) -> Map<Seq<char>, Seq<char>>
    decreases symbols.len(),
{
    if symbols.len() == 0 {
        Map::empty()
    } else {
        add_symbol(p, canonical_map_spec(p, symbols.drop_last()), symbols.last())
    }
}

/// `native` with its first `n` characters replaced by `prefix`.
fn swap_prefix(native: &str, n: usize, prefix: &str) -> (r: String)
    requires
        n <= native@.len(),
    ensures
        r@ == prefix@ + native@.subrange(n as int, native@.len() as int),
{
    let len = native.unicode_len();
    let rest = native.substring_char(n, len);
    concat(prefix, rest)
}

/// Kraken's alternative key for the BTC leg, if the key has one.
fn btc_alias(native: &str) -> (r: Option<String>)
    ensures
        opt_view(r) == kraken_btc_alias(native@),
{
    if starts_with_str(native, "BTC/") {
        proof { reveal_strlit("BTC/"); }
        Some(swap_prefix(native, 4, "XBT/"))
    } else if starts_with_str(native, "XBT/") {
        proof { reveal_strlit("XBT/"); }
        Some(swap_prefix(native, 4, "BTC/"))
    } else {
        None
    }
}

/// Kraken's alternative key for the DOGE leg, if the key has one.
fn doge_alias(native: &str) -> (r: Option<String>)
    ensures
        opt_view(r) == kraken_doge_alias(native@),
{
    if starts_with_str(native, "DOGE/") {
        proof { reveal_strlit("DOGE/"); }
        Some(swap_prefix(native, 5, "XDG/"))
    } else if starts_with_str(native, "XDG/") {
        proof { reveal_strlit("XDG/"); }
        Some(swap_prefix(native, 4, "DOGE/"))
    } else {
        None
    }
}

/// Map every provider key (and Kraken's ticker aliases) back to the requested canonical symbol.
pub fn canonical_symbol_map(provider: Provider, symbols: &Vec<String>) -> (m: SymbolMap)
    ensures
        m.wf(),
        m.view() == canonical_map_spec(provider, crate::text::views(symbols@)),
{
    let mut m = SymbolMap::new();
    let mut i: usize = 0;
    while i < symbols.len()
        invariant
            i <= symbols.len(),
            m.wf(),
            m.view() == canonical_map_spec(provider, crate::text::views(symbols@).subrange(0, i as int)),
        decreases symbols.len() - i,
    {
        let ghost prev = crate::text::views(symbols@).subrange(0, i as int);
        let ghost next = crate::text::views(symbols@).subrange(0, i + 1);
        assert(next.drop_last() =~= prev);
        assert(next.last() == symbols@[i as int]@);
        let symbol = symbols[i].as_str();
        let canonical = dash_symbol(symbol);
        let native = provider_symbol_key(provider, symbol);
        m.insert(native.clone(), canonical.clone());
        if provider == Provider::Kraken {
            match btc_alias(native.as_str()) {
                Some(a) => m.insert(a, canonical.clone()),
                None => {},
            }
            match doge_alias(native.as_str()) {
                Some(a) => m.insert(a, canonical.clone()),
                None => {},
            }
        }
        i = i + 1;
    }
    assert(crate::text::views(symbols@).subrange(0, symbols.len() as int) =~= crate::text::views(symbols@));
    m
}

/// The position of the last `-` in `s`, or -1 when there is none.
pub open spec fn last_dash(s: Seq<char>) -> int
    decreases s.len(),
{
    if s.len() == 0 {
        -1
    } else if s.last() == '-' {
        s.len() - 1
    } else {
        last_dash(s.drop_last())
    }
}

/// The quote currency of a canonical symbol: what follows its last `-`, if it has one.
pub open spec fn quote_of(symbol: Seq<char>) -> Option<Seq<char>> {
    let d = last_dash(symbol);
    if d < 0 { None } else { Some(symbol.subrange(d + 1, symbol.len() as int)) }
}

proof fn lemma_last_dash(s: Seq<char>)
    ensures
        -1 <= last_dash(s) < s.len(),
        last_dash(s) >= 0 ==> s[last_dash(s)] == '-',
        forall|j: int| last_dash(s) < j < s.len() ==> s[j] != '-',
    decreases s.len(),
{
    if s.len() > 0 && s.last() != '-' {
        lemma_last_dash(s.drop_last());
        assert forall|j: int| last_dash(s) < j < s.len() implies s[j] != '-' by {
            if j < s.len() - 1 {
                assert(s.drop_last()[j] == s[j]);
            }
        }
    }
}

/// The quote currency of a canonical symbol (the text after its last `-`).
pub fn quote_currency(symbol: &str) -> (r: Option<String>)
    ensures
        match quote_of(symbol@) {
            Some(q) => r is Some && r->Some_0@ == q,
            None => r is None,
        },
{
    let cs = chars_of(symbol);
    let mut i: usize = cs.len();
    proof {
        lemma_last_dash(symbol@);
    }
    while i > 0 && cs[i - 1] != '-'
        invariant
            i <= cs.len(),
            cs@ == symbol@,
            last_dash(symbol@) < i,
            -1 <= last_dash(symbol@),
            last_dash(symbol@) >= 0 ==> symbol@[last_dash(symbol@)] == '-',
            forall|j: int| i <= j < cs.len() ==> cs@[j] != '-',
        decreases i,
    {
        i = i - 1;
    }
    proof {
        if i > 0 {
            assert(cs@[i - 1] == '-');
            assert(last_dash(symbol@) == i - 1) by {
                if last_dash(symbol@) < i - 1 {
                    assert(symbol@[i - 1] != '-');
                }
            }
        } else {
            if last_dash(symbol@) >= 0 {
                assert(cs@[last_dash(symbol@)] == '-');
            }
        }
    }
    if i == 0 {
        None
    } else {
        Some(crate::text::string_of_range(&cs, i, cs.len()))
    }
}

/// Where a streamed update for a provider symbol belongs: the canonical symbol
/// it was requested as and that symbol's quote currency, or nothing for a
/// symbol that was not requested.
pub fn route_update(map: &SymbolMap, provider: Provider, symbol: &str) -> (r: Option<(String, Option<String>)>)
    requires
        map.wf(),
    ensures
        !map.view().contains_key(provider_key_spec(provider, symbol@)) ==> r is None,
        map.view().contains_key(provider_key_spec(provider, symbol@)) ==> r is Some
            && r->Some_0.0@ == map.view()[provider_key_spec(provider, symbol@)]
            && match quote_of(r->Some_0.0@) {
                Some(q) => r->Some_0.1 is Some && r->Some_0.1->Some_0@ == q,
                None => r->Some_0.1 is None,
            },
{
    let key = provider_symbol_key(provider, symbol);
    match map.get(key.as_str()) {
        Some(canonical) => {
            let quote = quote_currency(canonical.as_str());
            Some((canonical, quote))
        },
        None => None,
    }
}

/// The symbol map routes every requested symbol: each one's provider key is
/// mapped, every mapped key leads to the canonical form of a requested
/// symbol, and the last requested symbol's key leads to its own canonical form.
pub proof fn law_canonical_map_routes_requests(p: Provider, symbols: Seq<Seq<char>>)
    ensures
        forall|i: int| 0 <= i < symbols.len() ==> canonical_map_spec(p, symbols).contains_key(
            provider_key_spec(p, #[trigger] symbols[i]),
        ),
        forall|k: Seq<char>| #[trigger] canonical_map_spec(p, symbols).contains_key(k) ==> exists|i: int|
            0 <= i < symbols.len() && canonical_map_spec(p, symbols)[k] == dash_spec(#[trigger] symbols[i]),
        symbols.len() > 0 ==> canonical_map_spec(p, symbols)[provider_key_spec(p, symbols.last())] == dash_spec(
            symbols.last(),
        ),
    decreases symbols.len(),
{
    if symbols.len() > 0 {
        let prev = symbols.drop_last();
        law_canonical_map_routes_requests(p, prev);
        let m0 = canonical_map_spec(p, prev);
        let m = canonical_map_spec(p, symbols);
        let last = symbols.last();
        let canonical = dash_spec(last);
        let native = provider_key_spec(p, last);
        assert(m == add_symbol(p, m0, last));
        assert(m.contains_key(native) && m[native] == canonical);
        assert forall|k: Seq<char>| m0.contains_key(k) implies #[trigger] m.contains_key(k) by {}
        assert forall|i: int| 0 <= i < symbols.len() implies m.contains_key(provider_key_spec(p, #[trigger] symbols[i])) by {
            if i < symbols.len() - 1 {
                assert(prev[i] == symbols[i]);
                assert(m0.contains_key(provider_key_spec(p, prev[i])));
            }
        }
        assert forall|k: Seq<char>| #[trigger] m.contains_key(k) implies exists|i: int|
            0 <= i < symbols.len() && m[k] == dash_spec(#[trigger] symbols[i]) by {
            if m[k] == canonical {
                assert(symbols[symbols.len() - 1] == last);
            } else {
                assert(m0.contains_key(k) && m[k] == m0[k]);
                let i = choose|i: int| 0 <= i < prev.len() && m0[k] == dash_spec(#[trigger] prev[i]);
                assert(prev[i] == symbols[i]);
            }
        }
    }
}

/// Kraken reports BTC as XBT and DOGE as XDG, and either spelling may come
/// back on the stream: the key of `native` under each of its spellings.
pub open spec fn kraken_spellings(native: Seq<char>, k: Seq<char>) -> bool {
    ||| k == native
    ||| has_prefix(native, "DOGE/"@) && k == "XDG/"@ + native.subrange(5, native.len() as int)
    ||| has_prefix(native, "XDG/"@) && k == "DOGE/"@ + native.subrange(4, native.len() as int)
    ||| has_prefix(native, "BTC/"@) && k == "XBT/"@ + native.subrange(4, native.len() as int)
    ||| has_prefix(native, "XBT/"@) && k == "BTC/"@ + native.subrange(4, native.len() as int)
}

/// Registering one Kraken symbol keeps every key, and maps the symbol's key
/// under each of its spellings to its canonical form.
proof fn lemma_kraken_add_symbol(m: Map<Seq<char>, Seq<char>>, symbol: Seq<char>)
    ensures
        forall|k: Seq<char>| m.contains_key(k) ==> #[trigger] add_symbol(Provider::Kraken, m, symbol).contains_key(k),
        forall|k: Seq<char>| kraken_spellings(provider_key_spec(Provider::Kraken, symbol), k) ==> {
            &&& #[trigger] add_symbol(Provider::Kraken, m, symbol).contains_key(k)
            &&& add_symbol(Provider::Kraken, m, symbol)[k] == dash_spec(symbol)
        },
{
    reveal_strlit("DOGE/");
    reveal_strlit("XDG/");
    reveal_strlit("BTC/");
    reveal_strlit("XBT/");
    let native = provider_key_spec(Provider::Kraken, symbol);
    assert(has_prefix(native, "XDG/"@) ==> !has_prefix(native, "DOGE/"@)) by {
        if has_prefix(native, "XDG/"@) && has_prefix(native, "DOGE/"@) {
            assert(native.subrange(0, 4)[0] == native[0]);
            assert(native.subrange(0, 5)[0] == native[0]);
        }
    }
    assert(has_prefix(native, "XBT/"@) ==> !has_prefix(native, "BTC/"@)) by {
        if has_prefix(native, "XBT/"@) && has_prefix(native, "BTC/"@) {
            assert(native.subrange(0, 4)[0] == native[0]);
        }
    }
}

/// Every symbol requested from Kraken is routed under each of Kraken's
/// spellings of its key (`DOGE/…` and `XDG/…`, `BTC/…` and `XBT/…`), and the
/// last one requested leads, under each spelling, to its canonical form.
pub proof fn law_kraken_aliases_route(symbols: Seq<Seq<char>>)
    ensures
        forall|i: int, k: Seq<char>| 0 <= i < symbols.len() && kraken_spellings(
            provider_key_spec(Provider::Kraken, #[trigger] symbols[i]),
            k,
        ) ==> #[trigger] canonical_map_spec(Provider::Kraken, symbols).contains_key(k),
        forall|k: Seq<char>| symbols.len() > 0 && #[trigger] kraken_spellings(
            provider_key_spec(Provider::Kraken, symbols.last()),
            k,
        ) ==> canonical_map_spec(Provider::Kraken, symbols)[k] == dash_spec(symbols.last()),
    decreases symbols.len(),
{
    if symbols.len() > 0 {
        let prev = symbols.drop_last();
        law_kraken_aliases_route(prev);
        let m0 = canonical_map_spec(Provider::Kraken, prev);
        lemma_kraken_add_symbol(m0, symbols.last());
        let m = canonical_map_spec(Provider::Kraken, symbols);
        assert(m == add_symbol(Provider::Kraken, m0, symbols.last()));
        assert forall|k: Seq<char>| kraken_spellings(provider_key_spec(Provider::Kraken, symbols.last()), k) implies m[k]
            == dash_spec(symbols.last()) by {
            assert(add_symbol(Provider::Kraken, m0, symbols.last()).contains_key(k));
        }
        assert forall|i: int, k: Seq<char>| 0 <= i < symbols.len() && kraken_spellings(
            provider_key_spec(Provider::Kraken, #[trigger] symbols[i]),
            k,
        ) implies #[trigger] canonical_map_spec(Provider::Kraken, symbols).contains_key(k) by {
            if i < symbols.len() - 1 {
                assert(prev[i] == symbols[i]);
                assert(m0.contains_key(k));
            }
        }
    }
}

} // verus!
