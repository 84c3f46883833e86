//! The catalog of built-in performance metrics, the metrics selected by
//! default, and ordered metric selections.

use vstd::prelude::*;
use crate::models::{debug_quoted, quote_debug};
use crate::text::{concat, owned, str_eq, views};

verus! {

/// Metadata describing a built-in performance metric.
#[derive(Clone, Debug, PartialEq, Eq)]
pub struct MetricDefinition {
    /// Stable key stored in experiment results.
    pub key: String,
    /// Human-readable display name.
    pub name: String,
    /// Short explanation of the metric.
    pub description: String,
    /// Whether the value is a fractional percentage.
    pub percentage: bool,
    /// Whether larger values rank ahead of smaller values.
    pub higher_is_better: bool,
}

/// A metric definition as characters and flags.
pub open spec fn definition_view(d: MetricDefinition) -> (Seq<char>, Seq<char>, Seq<char>, bool, bool) {
    (d.key@, d.name@, d.description@, d.percentage, d.higher_is_better)
}

impl MetricDefinition {
    /// A definition from its parts.
    pub fn new(key: &str, name: &str, description: &str, percentage: bool, higher_is_better: bool) -> (r: MetricDefinition)
        ensures
            definition_view(r) == (key@, name@, description@, percentage, higher_is_better),
    {
        MetricDefinition {
            key: owned(key),
            name: owned(name),
            description: owned(description),
            percentage,
            higher_is_better,
        }
    }

    /// The representation `MetricDefinition(key="…", name="…")`, each string
    /// in its `Debug` form.
    #[allow(non_snake_case)]
    pub fn __repr__(&self) -> (r: String)
        ensures
            r@ == "MetricDefinition(key="@ + debug_quoted(self.key@) + ", name="@ + debug_quoted(self.name@) + ")"@,
    {
        let k = quote_debug(self.key.as_str());
        let n = quote_debug(self.name.as_str());
        let head = concat("MetricDefinition(key=", k.as_str());
        let mid = concat(head.as_str(), ", name=");
        let tail = concat(n.as_str(), ")");
        concat(mid.as_str(), tail.as_str())
    }
}

/// Every metric implemented by the engine: key, name, description, whether
/// it is a percentage, and whether higher is better.
pub open spec fn builtin_catalog() -> Seq<(Seq<char>, Seq<char>, Seq<char>, bool, bool)> {
    seq![
        ("total_return"@, "Total return"@, "Net portfolio return over the experiment."@, true, true),
        ("pnl"@, "Profit and loss"@, "Final equity minus initial cash."@, false, true),
        ("final_equity"@, "Final equity"@, "Portfolio value at the final sample."@, false, true),
        ("cagr"@, "CAGR"@, "Compound annual growth rate."@, true, true),
        ("ann_volatility"@, "Annualized volatility"@, "Annualized standard deviation of returns."@, true, false),
        ("sharpe"@, "Sharpe ratio"@, "Annualized excess return per unit of volatility."@, false, true),
        ("sortino"@, "Sortino ratio"@, "Annualized excess return per unit of downside deviation."@, false, true),
        ("max_dd"@, "Maximum drawdown"@, "Largest fractional fall from a running equity peak."@, true, true),
        ("calmar"@, "Calmar ratio"@, "CAGR divided by absolute maximum drawdown."@, false, true),
        ("n_trades"@, "Trades"@, "Number of completed round-trip trades."@, false, true),
        ("win_rate"@, "Win rate"@, "Fraction of completed trades with positive PnL."@, true, true),
        ("profit_factor"@, "Profit factor"@, "Gross winning PnL divided by gross losing PnL."@, false, true),
        ("expectancy"@, "Expectancy"@, "Average PnL per completed trade."@, false, true),
        ("avg_win"@, "Average win"@, "Average PnL of profitable trades."@, false, true),
        ("avg_loss"@, "Average loss"@, "Average PnL of losing trades."@, false, true),
        ("best_trade"@, "Best trade"@, "Largest completed-trade PnL."@, false, true),
        ("worst_trade"@, "Worst trade"@, "Smallest completed-trade PnL."@, false, true),
        ("payoff_ratio"@, "Payoff ratio"@, "Average win divided by absolute average loss."@, false, true),
        ("recovery_factor"@, "Recovery factor"@, "Net PnL divided by absolute maximum drawdown amount."@, false, true),
        ("excess_return"@, "Excess return"@, "Return above the compounded risk-free rate."@, true, true),
        ("alpha"@, "Alpha"@, "Return above the selected benchmark over the shared window."@, true, true),
    ]
}

/// Return metadata for every metric implemented by the engine.
pub fn builtin_metric_definitions() -> (r: Vec<MetricDefinition>)
    ensures
        r@.map_values(|d: MetricDefinition| definition_view(d)) == builtin_catalog(),
{
    let mut v: Vec<MetricDefinition> = Vec::new();
    v.push(MetricDefinition::new("total_return", "Total return", "Net portfolio return over the experiment.", true, true));
    v.push(MetricDefinition::new("pnl", "Profit and loss", "Final equity minus initial cash.", false, true));
    v.push(MetricDefinition::new("final_equity", "Final equity", "Portfolio value at the final sample.", false, true));
    v.push(MetricDefinition::new("cagr", "CAGR", "Compound annual growth rate.", true, true));
    v.push(MetricDefinition::new("ann_volatility", "Annualized volatility", "Annualized standard deviation of returns.", true, false));
    v.push(MetricDefinition::new("sharpe", "Sharpe ratio", "Annualized excess return per unit of volatility.", false, true));
    v.push(MetricDefinition::new("sortino", "Sortino ratio", "Annualized excess return per unit of downside deviation.", false, true));
    v.push(MetricDefinition::new("max_dd", "Maximum drawdown", "Largest fractional fall from a running equity peak.", true, true));
    v.push(MetricDefinition::new("calmar", "Calmar ratio", "CAGR divided by absolute maximum drawdown.", false, true));
    v.push(MetricDefinition::new("n_trades", "Trades", "Number of completed round-trip trades.", false, true));
    v.push(MetricDefinition::new("win_rate", "Win rate", "Fraction of completed trades with positive PnL.", true, true));
    v.push(MetricDefinition::new("profit_factor", "Profit factor", "Gross winning PnL divided by gross losing PnL.", false, true));
    v.push(MetricDefinition::new("expectancy", "Expectancy", "Average PnL per completed trade.", false, true));
    v.push(MetricDefinition::new("avg_win", "Average win", "Average PnL of profitable trades.", false, true));
    v.push(MetricDefinition::new("avg_loss", "Average loss", "Average PnL of losing trades.", false, true));
    v.push(MetricDefinition::new("best_trade", "Best trade", "Largest completed-trade PnL.", false, true));
    v.push(MetricDefinition::new("worst_trade", "Worst trade", "Smallest completed-trade PnL.", false, true));
    v.push(MetricDefinition::new("payoff_ratio", "Payoff ratio", "Average win divided by absolute average loss.", false, true));
    v.push(MetricDefinition::new("recovery_factor", "Recovery factor", "Net PnL divided by absolute maximum drawdown amount.", false, true));
    v.push(MetricDefinition::new("excess_return", "Excess return", "Return above the compounded risk-free rate.", true, true));
    v.push(MetricDefinition::new("alpha", "Alpha", "Return above the selected benchmark over the shared window.", true, true));
    assert(v@.map_values(|d: MetricDefinition| definition_view(d)) =~= builtin_catalog());
    v
}

/// The keys of the built-in metrics.
pub open spec fn builtin_keys() -> Seq<Seq<char>> {
    builtin_catalog().map_values(|e: (Seq<char>, Seq<char>, Seq<char>, bool, bool)| e.0)
}

/// Return whether `key` is implemented by the engine.
pub fn is_builtin_metric(key: &str) -> (r: bool)
    ensures
        r == builtin_keys().contains(key@),
{
    let defs = builtin_metric_definitions();
    let ghost keys = builtin_keys();
    let mut i: usize = 0;
    while i < defs.len()
        invariant
            i <= defs.len(),
            defs@.map_values(|d: MetricDefinition| definition_view(d)) == builtin_catalog(),
            keys == builtin_keys(),
            forall|j: int| 0 <= j < i ==> keys[j] != key@,
        decreases defs.len() - i,
    {
        assert(keys[i as int] == defs@[i as int].key@);
        if str_eq(defs[i].key.as_str(), key) {
            return true;
        }
        i = i + 1;
    }
    false
}

/// The keys of the metrics a new experiment selects unless told otherwise.
pub open spec fn default_metric_keys() -> Seq<Seq<char>> {
    seq!["sharpe"@, "total_return"@, "pnl"@, "max_dd"@, "cagr"@, "n_trades"@, "win_rate"@, "sortino"@, "ann_volatility"@, "final_equity"@, "excess_return"@, "alpha"@]
}

/// Stable keys selected by a new experiment unless explicitly overridden.
pub const DEFAULT_METRICS: [&'static str; 12] = [
    "sharpe",
    "total_return",
    "pnl",
    "max_dd",
    "cagr",
    "n_trades",
    "win_rate",
    "sortino",
    "ann_volatility",
    "final_equity",
    "excess_return",
    "alpha",
];

/// [`DEFAULT_METRICS`] as owned strings.
pub fn default_metrics() -> (r: Vec<String>)
    ensures
        views(r@) == default_metric_keys(),
{
    let mut v: Vec<String> = Vec::new();
    let keys: [&str; 12] = DEFAULT_METRICS;
    let mut i: usize = 0;
    while i < 12
        invariant
            i <= 12,
            keys@.map_values(|s: &str| s@) == default_metric_keys(),
            views(v@) == default_metric_keys().subrange(0, i as int),
        decreases 12 - i,
    {
        let ghost prev = v@;
        v.push(owned(keys[i]));
        proof {
            crate::text::lemma_views_push(prev, v@.last());
        }
        assert(views(v@) =~= default_metric_keys().subrange(0, i + 1));
        i = i + 1;
    }
    assert(default_metric_keys().subrange(0, 12) =~= default_metric_keys());
    v
}

/// Every metric selected by default is a built-in metric.
pub proof fn law_default_metrics_are_builtin()
    ensures
        forall|i: int| 0 <= i < default_metric_keys().len() ==> builtin_keys().contains(#[trigger] default_metric_keys()[i]),
{
    let d = default_metric_keys();
    let b = builtin_keys();
    assert(b[5] == d[0]);
    assert(b[0] == d[1]);
    assert(b[1] == d[2]);
    assert(b[7] == d[3]);
    assert(b[3] == d[4]);
    assert(b[9] == d[5]);
    assert(b[10] == d[6]);
    assert(b[6] == d[7]);
    assert(b[4] == d[8]);
    assert(b[2] == d[9]);
    assert(b[19] == d[10]);
    assert(b[20] == d[11]);
}

/// The keys of the built-in metrics are distinct.
pub proof fn law_builtin_keys_distinct()
    ensures
        builtin_keys().no_duplicates(),
{
    let b = builtin_keys();
    assert forall|i: int, j: int| 0 <= i < b.len() && 0 <= j < b.len() && i != j implies b[i] != b[j] by {
        reveal_strlit("total_return");
        reveal_strlit("pnl");
        reveal_strlit("final_equity");
        reveal_strlit("cagr");
        reveal_strlit("ann_volatility");
        reveal_strlit("sharpe");
        reveal_strlit("sortino");
        reveal_strlit("max_dd");
        reveal_strlit("calmar");
        reveal_strlit("n_trades");
        reveal_strlit("win_rate");
        reveal_strlit("profit_factor");
        reveal_strlit("expectancy");
        reveal_strlit("avg_win");
        reveal_strlit("avg_loss");
        reveal_strlit("best_trade");
        reveal_strlit("worst_trade");
        reveal_strlit("payoff_ratio");
        reveal_strlit("recovery_factor");
        reveal_strlit("excess_return");
        reveal_strlit("alpha");
        assert(b[i].len() != b[j].len() || b[i][0] != b[j][0] || b[i][1] != b[j][1] || b[i][2] != b[j][2] || b[i][3] != b[j][3]
            || b[i][4] != b[j][4]);
    }
}

/// An ordered selection of metric names.
pub struct MetricSelection {
    names: Vec<String>,
}

impl View for MetricSelection {
    type V = Seq<Seq<char>>;

    closed spec fn view(&self) -> Seq<Seq<char>> {
        views(self.names@)
    }
}

impl MetricSelection {
    /// A selection holding exactly these names, in this order.
    pub fn from_names(names: Vec<String>) -> (r: MetricSelection)
        ensures
            r@ == views(names@),
    {
        MetricSelection { names }
    }

    /// The selected names, in order.
    pub fn names(&self) -> (r: &Vec<String>)
        ensures
            views(r@) == self@,
    {
        &self.names
    }

    /// Append a name unless it is already selected.
    pub fn push_name(names: &mut Vec<String>, name: String)
        ensures
            views(final(names)@) == if views(old(names)@).contains(name@) {
                views(old(names)@)
            } else {
                views(old(names)@).push(name@)
            },
    {
        let mut i: usize = 0;
        while i < names.len()
            invariant
                i <= names.len(),
                forall|k: int| 0 <= k < i ==> views(names@)[k] != name@,
            decreases names.len() - i,
        {
            if str_eq(names[i].as_str(), name.as_str()) {
                assert(views(names@)[i as int] == name@);
                return;
            }
            i = i + 1;
        }
        assert(!views(names@).contains(name@));
        let ghost prev = names@;
        names.push(name);
        proof {
            crate::text::lemma_views_push(prev, names@.last());
        }
    }
}

impl Default for MetricSelection {
    /// The empty selection.
    fn default() -> (r: MetricSelection)
        ensures
            r@ == Seq::<Seq<char>>::empty(),
    {
        let r = MetricSelection::from_names(Vec::new());
        assert(r@ =~= Seq::<Seq<char>>::empty());
        r
    }
}

/// Adding names one by one keeps a selection free of repeats.
pub proof fn law_push_name_keeps_names_distinct(names: Seq<Seq<char>>, name: Seq<char>)
    requires
        names.no_duplicates(),
    ensures
        (if names.contains(name) { names } else { names.push(name) }).no_duplicates(),
        (if names.contains(name) { names } else { names.push(name) }).contains(name),
{
    if !names.contains(name) {
        let t = names.push(name);
        assert(t[names.len() as int] == name);
        assert forall|i: int, j: int| 0 <= i < t.len() && 0 <= j < t.len() && i != j implies t[i] != t[j] by {
            if i < names.len() && j < names.len() {
            } else if i < names.len() {
                assert(t[i] == names[i]);
            } else {
                assert(t[j] == names[j]);
            }
        }
    }
}

} // verus!
