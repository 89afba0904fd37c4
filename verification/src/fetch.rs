//! Batch-fetch planning and merging.
//!
//! A fetch cycle never fails as a whole because single symbols fail.
//! Planning splits the requested symbols — deduplicated, order kept —
//! into the ones worth a network call and immediate failures for the
//! rest; merging folds the per-symbol outcomes the host collected back
//! into one batch result.

use vstd::prelude::*;
use crate::quote::Quote;
use crate::symbol::{spec_valid_symbol, validate, str_eq};

verus! {

/// Failure reason recorded for a symbol that never reaches the network.
pub const INVALID_SYMBOL_REASON: &'static str = "invalid symbol";

/// How many fetches may run at once when the caller does not choose.
pub const DEFAULT_MAX_CONCURRENCY: usize = 12;

/// The views of a vector of strings.
pub open spec fn views_of(s: Seq<String>) -> Seq<Seq<char>> {
    s.map_values(|x: String| x@)
}

/// The sequence with later duplicates dropped, first occurrences kept
/// in order.
pub open spec fn spec_dedup(s: Seq<Seq<char>>) -> Seq<Seq<char>>
    decreases s.len(),
{
    if s.len() == 0 {
        Seq::empty()
    } else {
        let d = spec_dedup(s.drop_last());
        if d.contains(s.last()) {
            d
        } else {
            d.push(s.last())
        }
    }
}

/// The valid symbols of a sequence, order kept.
pub open spec fn spec_valid_of(s: Seq<Seq<char>>) -> Seq<Seq<char>>
    decreases s.len(),
{
    if s.len() == 0 {
        Seq::empty()
    } else {
        let d = spec_valid_of(s.drop_last());
        if spec_valid_symbol(s.last()) {
            d.push(s.last())
        } else {
            d
        }
    }
}

/// The invalid symbols of a sequence, order kept.
pub open spec fn spec_invalid_of(s: Seq<Seq<char>>) -> Seq<Seq<char>>
    decreases s.len(),
{
    if s.len() == 0 {
        Seq::empty()
    } else {
        let d = spec_invalid_of(s.drop_last());
        if spec_valid_symbol(s.last()) {
            d
        } else {
            d.push(s.last())
        }
    }
}

/// One fetch cycle's marching orders: who to ask, who already failed,
/// and how wide the request fan-out may be.
#[derive(Debug)]
pub struct FetchPlan {
    /// Symbols worth a network call: valid, deduplicated, order kept.
    pub to_fetch: Vec<String>,
    /// Immediate failures: invalid symbols with the fixed reason.
    pub failures: Vec<(String, String)>,
    /// Most fetches allowed in flight at once, at least one.
    pub max_concurrency: usize,
}

/// Whether a vector of strings holds a given view.
pub fn contains_view(v: &Vec<String>, sym: &str) -> (r: bool)
    ensures
        r == views_of(v@).contains(sym@),
{
    let n = v.len();
    let mut i: usize = 0;
    while i < n
        invariant
            n == v@.len(),
            i <= n,
            forall|j: int| 0 <= j < i ==> views_of(v@)[j] != sym@,
        decreases n - i,
    {
        proof {
            assert(views_of(v@)[i as int] == v@[i as int]@);
        }
        if str_eq(v[i].as_str(), sym) {
            proof {
                assert(views_of(v@)[i as int] == sym@);
            }
            return true;
        }
        i += 1;
    }
    proof {
        assert(forall|j: int| 0 <= j < views_of(v@).len() ==> views_of(v@)[j] != sym@);
    }
    false
}

/// Plan one fetch cycle: drop duplicate symbols, send the valid ones
/// to the fetch list and the invalid ones straight to the failures,
/// each with the fixed reason.
pub fn plan_fetch(symbols: &Vec<String>, max_concurrency: usize) -> (r: FetchPlan)
    ensures
        views_of(r.to_fetch@) == spec_valid_of(spec_dedup(views_of(symbols@))),
        views_of(r.failures@.map_values(|f: (String, String)| f.0)) == spec_invalid_of(
            spec_dedup(views_of(symbols@)),
        ),
        forall|i: int|
            0 <= i < r.failures@.len() ==> (#[trigger] r.failures@[i]).1@
                == INVALID_SYMBOL_REASON@,
        r.max_concurrency == if max_concurrency == 0 {
            1int
        } else {
            max_concurrency as int
        },
    {
    let n = symbols.len();
    let mut deduped: Vec<String> = Vec::new();
    let mut i: usize = 0;
    while i < n
        invariant
            n == symbols@.len(),
            i <= n,
            views_of(deduped@) == spec_dedup(views_of(symbols@.subrange(0, i as int))),
        decreases n - i,
    {
        proof {
            let pre = views_of(symbols@.subrange(0, i as int));
            let pre1 = views_of(symbols@.subrange(0, i as int + 1));
            assert(pre1 =~= pre.push(symbols@[i as int]@));
            assert(pre1.drop_last() =~= pre);
        }
        if !contains_view(&deduped, symbols[i].as_str()) {
            let ghost d0 = deduped@;
            deduped.push(symbols[i].clone());
            proof {
                assert(views_of(deduped@) =~= views_of(d0).push(symbols@[i as int]@));
            }
        }
        i += 1;
    }
    proof {
        assert(symbols@.subrange(0, n as int) =~= symbols@);
    }
    let m = deduped.len();
    let mut to_fetch: Vec<String> = Vec::new();
    let mut failures: Vec<(String, String)> = Vec::new();
    let mut k: usize = 0;
    while k < m
        invariant
            m == deduped@.len(),
            k <= m,
            views_of(to_fetch@) == spec_valid_of(views_of(deduped@.subrange(0, k as int))),
            views_of(failures@.map_values(|f: (String, String)| f.0)) == spec_invalid_of(
                views_of(deduped@.subrange(0, k as int)),
            ),
            forall|i2: int|
                0 <= i2 < failures@.len() ==> (#[trigger] failures@[i2]).1@
                    == INVALID_SYMBOL_REASON@,
        decreases m - k,
    {
        proof {
            let pre = views_of(deduped@.subrange(0, k as int));
            let pre1 = views_of(deduped@.subrange(0, k as int + 1));
            assert(pre1 =~= pre.push(deduped@[k as int]@));
            assert(pre1.drop_last() =~= pre);
        }
        if validate(deduped[k].as_str()) {
            let ghost t0 = to_fetch@;
            to_fetch.push(deduped[k].clone());
            proof {
                assert(views_of(to_fetch@) =~= views_of(t0).push(deduped@[k as int]@));
            }
        } else {
            let ghost f0 = failures@;
            failures.push((deduped[k].clone(), String::from_str(INVALID_SYMBOL_REASON)));
            proof {
                assert(failures@.map_values(|f: (String, String)| f.0) =~= f0.map_values(
                    |f: (String, String)| f.0,
                ).push(failures@.last().0));
                assert(views_of(failures@.map_values(|f: (String, String)| f.0)) =~= views_of(
                    f0.map_values(|f: (String, String)| f.0),
                ).push(deduped@[k as int]@));
            }
        }
        k += 1;
    }
    proof {
        assert(deduped@.subrange(0, m as int) =~= deduped@);
    }
    let cap = if max_concurrency == 0 {
        1
    } else {
        max_concurrency
    };
    FetchPlan { to_fetch, failures, max_concurrency: cap }
}

/// A watchlist as the session stores it: every symbol expanded, later
/// duplicates dropped, first occurrences kept in order.
pub open spec fn spec_normalized(symbols: Seq<String>) -> Seq<Seq<char>> {
    spec_dedup(symbols.map_values(|s: String| crate::symbol::spec_expand(s@)))
}

/// Expand every symbol and drop duplicate expansions, keeping first
/// occurrences in order.
pub fn normalize_symbols(symbols: &Vec<String>) -> (r: Vec<String>)
    ensures
        views_of(r@) == spec_normalized(symbols@),
{
    let n = symbols.len();
    let mut out: Vec<String> = Vec::new();
    let mut i: usize = 0;
    while i < n
        invariant
            n == symbols@.len(),
            i <= n,
            views_of(out@) == spec_dedup(
                symbols@.subrange(0, i as int).map_values(
                    |s: String| crate::symbol::spec_expand(s@),
                ),
            ),
        decreases n - i,
    {
        proof {
            let pre = symbols@.subrange(0, i as int).map_values(
                |s: String| crate::symbol::spec_expand(s@),
            );
            let pre1 = symbols@.subrange(0, i as int + 1).map_values(
                |s: String| crate::symbol::spec_expand(s@),
            );
            assert(pre1 =~= pre.push(crate::symbol::spec_expand(symbols@[i as int]@)));
            assert(pre1.drop_last() =~= pre);
        }
        let expanded = crate::symbol::expand_symbol(symbols[i].as_str());
        if !contains_view(&out, expanded.as_str()) {
            let ghost o0 = out@;
            out.push(expanded);
            proof {
                assert(views_of(out@) =~= views_of(o0).push(
                    crate::symbol::spec_expand(symbols@[i as int]@),
                ));
            }
        }
        i += 1;
    }
    proof {
        assert(symbols@.subrange(0, n as int) =~= symbols@);
    }
    out
}

/// What one symbol's fetch came back with: a parsed quote or a
/// human-readable reason.
#[derive(Debug)]
pub struct SymbolOutcome {
    /// The symbol that was fetched.
    pub symbol: String,
    /// The quote, or why there is none.
    pub outcome: Result<Quote, String>,
}

/// One fetch cycle's result: the quotes that arrived and every
/// per-symbol failure.
#[derive(Debug)]
pub struct BatchResult {
    /// Successfully fetched quotes.
    pub quotes: Vec<Quote>,
    /// Per-symbol failures: planning rejections first, then fetch
    /// failures in completion order.
    pub failures: Vec<(String, String)>,
}

/// The quotes among a run of outcomes, in order.
pub open spec fn spec_successes(s: Seq<SymbolOutcome>) -> Seq<Quote>
    decreases s.len(),
{
    if s.len() == 0 {
        Seq::empty()
    } else {
        let d = spec_successes(s.drop_last());
        match s.last().outcome {
            Ok(q) => d.push(q),
            Err(_) => d,
        }
    }
}

/// The failures among a run of outcomes, in order, paired with their
/// symbols.
pub open spec fn spec_failures(s: Seq<SymbolOutcome>) -> Seq<(String, String)>
    decreases s.len(),
{
    if s.len() == 0 {
        Seq::empty()
    } else {
        let d = spec_failures(s.drop_last());
        match s.last().outcome {
            Ok(_) => d,
            Err(e) => d.push((s.last().symbol, e)),
        }
    }
}

/// Fold the collected outcomes into one batch result: the planning
/// failures first, then each outcome exactly once, in the order they
/// were handed in.
pub fn merge_outcomes(planned_failures: Vec<(String, String)>, outcomes: Vec<SymbolOutcome>) -> (r:
    BatchResult)
    ensures
        r.quotes@ == spec_successes(outcomes@),
        r.failures@ == planned_failures@ + spec_failures(outcomes@),
{
    let ghost all = outcomes@;
    let mut quotes: Vec<Quote> = Vec::new();
    let mut failures: Vec<(String, String)> = planned_failures;
    let ghost base = failures@;
    let n = outcomes.len();
    let mut outcomes = outcomes;
    let mut i: usize = 0;
    // consume from the front so each outcome moves exactly once
    while i < n
        invariant
            n == all.len(),
            i <= n,
            outcomes@ =~= all.subrange(i as int, n as int),
            quotes@ == spec_successes(all.subrange(0, i as int)),
            failures@ == base + spec_failures(all.subrange(0, i as int)),
        decreases n - i,
    {
        proof {
            assert(all.subrange(0, i as int + 1) =~= all.subrange(0, i as int).push(
                all[i as int],
            ));
            assert(all.subrange(0, i as int + 1).drop_last() =~= all.subrange(0, i as int));
        }
        let item = outcomes.remove(0);
        proof {
            assert(item == all[i as int]);
            assert(outcomes@ =~= all.subrange(i as int + 1, n as int));
        }
        match item.outcome {
            Ok(q) => {
                quotes.push(q);
            },
            Err(e) => {
                failures.push((item.symbol, e));
            },
        }
        i += 1;
    }
    proof {
        assert(all.subrange(0, n as int) =~= all);
    }
    BatchResult { quotes, failures }
}

} // verus!
