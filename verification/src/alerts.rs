//! Price alerts: definitions, evaluation, and the triggered list.
//!
//! Alerts are kept per symbol in insertion order and are never removed
//! by firing; each evaluation pass rebuilds the triggered list from
//! scratch, so an alert fires again every cycle its condition holds.

use vstd::prelude::*;
use crate::price::MAX_AMOUNT;
use crate::quote::Quote;
use crate::keyed::{
    Keyed, spec_find, find_index, lemma_find_props, lemma_find_update, lemma_find_push,
    lemma_find_at,
};
use crate::symbol::str_eq;

verus! {

/// How a target price is compared against the current price.
#[derive(Debug, Clone, Copy, PartialEq, Eq, Structural)]
pub enum AlertCondition {
    Above,
    Below,
    Equal,
}

/// Half-width of the band an `Equal` alert accepts, in fixed point:
/// one cent.
pub const EQUAL_TOLERANCE: i64 = 100;

/// Whether a condition holds of a price.
pub open spec fn spec_triggers(cond: AlertCondition, target: int, price: int) -> bool {
    match cond {
        AlertCondition::Above => price >= target,
        AlertCondition::Below => price <= target,
        AlertCondition::Equal => -EQUAL_TOLERANCE < price - target < EQUAL_TOLERANCE,
    }
}

/// Evaluate one condition against one price.
pub fn triggers(cond: AlertCondition, target: i64, price: i64) -> (r: bool)
    requires
        0 <= target <= MAX_AMOUNT,
        0 <= price <= MAX_AMOUNT,
    ensures
        r == spec_triggers(cond, target as int, price as int),
{
    match cond {
        AlertCondition::Above => price >= target,
        AlertCondition::Below => price <= target,
        AlertCondition::Equal => {
            let diff = price - target;
            -EQUAL_TOLERANCE < diff && diff < EQUAL_TOLERANCE
        },
    }
}

/// One firing of an alert: what fired, for which symbol, at what price.
#[derive(Debug, Clone)]
pub struct TriggeredAlert {
    /// The symbol whose alert fired.
    pub symbol: String,
    /// The condition that fired.
    pub condition: AlertCondition,
    /// The alert's target price.
    pub target: i64,
    /// The price that fired it.
    pub price: i64,
}

/// The alerts one symbol carries, in insertion order.
#[derive(Debug, Clone)]
pub struct AlertEntry {
    /// The symbol the alerts watch.
    pub symbol: String,
    /// The conditions and their target prices.
    pub alerts: Vec<(AlertCondition, i64)>,
}

impl Keyed for AlertEntry {
    open spec fn key(&self) -> Seq<char> {
        self.symbol@
    }

    fn key_is(&self, sym: &str) -> (r: bool) {
        str_eq(self.symbol.as_str(), sym)
    }
}

/// All configured price alerts, keyed by symbol.
#[derive(Debug, Clone)]
pub struct AlertBook {
    entries: Vec<AlertEntry>,
}

impl AlertBook {
    /// Every symbol appears once and every target is a bounded,
    /// non-negative amount.
    pub closed spec fn wf(self) -> bool {
        &&& forall|i: int, j: int|
            0 <= i < j < self.entries@.len() ==> (#[trigger] self.entries@[i]).key() != (
            #[trigger] self.entries@[j]).key()
        &&& forall|i: int, k: int|
            0 <= i < self.entries@.len() && 0 <= k < self.entries@[i].alerts@.len() ==> 0 <= (
            #[trigger] self.entries@[i].alerts@[k]).1 <= MAX_AMOUNT
    }

    /// Where a symbol's entry sits, `-1` when absent.
    closed spec fn spec_index_of(self, sym: Seq<char>) -> int {
        spec_find(self.entries@, sym)
    }

    /// The alerts configured for a symbol, insertion order; empty when
    /// none.
    pub closed spec fn alerts_of(self, sym: Seq<char>) -> Seq<(AlertCondition, i64)> {
        if spec_find(self.entries@, sym) != -1 {
            self.entries@[spec_find(self.entries@, sym)].alerts@
        } else {
            Seq::empty()
        }
    }

    /// Targets in a well-formed book are bounded, non-negative amounts.
    pub proof fn lemma_targets_bounded(self, sym: Seq<char>)
        requires
            self.wf(),
        ensures
            forall|k: int|
                0 <= k < self.alerts_of(sym).len() ==> 0 <= (#[trigger] self.alerts_of(sym)[k]).1
                    <= MAX_AMOUNT,
    {
        lemma_find_props(self.entries@, sym);
    }

    /// An empty book.
    pub fn new() -> (r: AlertBook)
        ensures
            r.wf(),
            forall|sym: Seq<char>| #[trigger] r.alerts_of(sym) == Seq::<(AlertCondition, i64)>::empty(),
    {
        let r = AlertBook { entries: Vec::new() };
        proof {
            assert forall|sym: Seq<char>| #[trigger]
                r.alerts_of(sym) == Seq::<(AlertCondition, i64)>::empty() by {
                lemma_find_props(r.entries@, sym);
            }
        }
        r
    }

    /// Add an alert for a symbol, after any it already has.
    pub fn add_alert(&mut self, symbol: &str, condition: AlertCondition, target: i64)
        requires
            old(self).wf(),
            0 <= target <= MAX_AMOUNT,
        ensures
            final(self).wf(),
            final(self).alerts_of(symbol@) == old(self).alerts_of(symbol@).push(
                (condition, target),
            ),
            forall|other: Seq<char>|
                other != symbol@ ==> #[trigger] final(self).alerts_of(other) == old(
                    self,
                ).alerts_of(other),
    {
        let ghost s0 = self.entries@;
        match find_index(&self.entries, symbol) {
            Some(i) => {
                let mut entry = self.entries.remove(i);
                proof {
                    lemma_find_props(s0, symbol@);
                }
                entry.alerts.push((condition, target));
                self.entries.insert(i, entry);
                proof {
                    let s1 = self.entries@;
                    assert(s1 =~= s0.update(i as int, s1[i as int]));
                    assert(s1[i as int].key() == s0[i as int].key());
                    assert forall|k: Seq<char>| #[trigger]
                        spec_find(s1, k) == spec_find(s0, k) by {
                        lemma_find_update(s0, i as int, s1[i as int], k);
                    }
                    assert(forall|j: int|
                        0 <= j < s1.len() && j != i ==> s1[j] == #[trigger] s0[j]);
                    assert forall|other: Seq<char>| other != symbol@ implies #[trigger] final(self).alerts_of(other) == old(self).alerts_of(other) by {
                        lemma_find_props(s0, other);
                    }
                }
            },
            None => {
                proof {
                    lemma_find_props(s0, symbol@);
                }
                let mut alerts: Vec<(AlertCondition, i64)> = Vec::new();
                alerts.push((condition, target));
                let entry = AlertEntry { symbol: String::from_str(symbol), alerts };
                self.entries.push(entry);
                proof {
                    let s1 = self.entries@;
                    let v = s1[s1.len() - 1];
                    assert(s1 =~= s0.push(v));
                    assert(v.key() == symbol@);
                    lemma_find_push(s0, v, symbol@);
                    assert(v.alerts@ =~= old(self).alerts_of(symbol@).push((condition, target)));
                    assert forall|other: Seq<char>| other != symbol@ implies #[trigger] final(self).alerts_of(other) == old(self).alerts_of(other) by {
                        lemma_find_props(s0, other);
                        lemma_find_push(s0, v, other);
                    }
                }
            },
        }
    }

    /// Remove a symbol's alert by position; out-of-range positions
    /// change nothing.
    pub fn remove_alert(&mut self, symbol: &str, index: usize)
        requires
            old(self).wf(),
        ensures
            final(self).wf(),
            index < old(self).alerts_of(symbol@).len() ==> final(self).alerts_of(symbol@) == old(
                self,
            ).alerts_of(symbol@).remove(index as int),
            index >= old(self).alerts_of(symbol@).len() ==> final(self).alerts_of(symbol@) == old(
                self,
            ).alerts_of(symbol@),
            forall|other: Seq<char>|
                other != symbol@ ==> #[trigger] final(self).alerts_of(other) == old(
                    self,
                ).alerts_of(other),
    {
        let ghost s0 = self.entries@;
        match find_index(&self.entries, symbol) {
            Some(i) => {
                proof {
                    lemma_find_props(s0, symbol@);
                }
                if index < self.entries[i].alerts.len() {
                    let mut entry = self.entries.remove(i);
                    entry.alerts.remove(index);
                    self.entries.insert(i, entry);
                    proof {
                        let s1 = self.entries@;
                        assert(s1 =~= s0.update(i as int, s1[i as int]));
                        assert(s1[i as int].key() == s0[i as int].key());
                        assert forall|k: Seq<char>| #[trigger]
                            spec_find(s1, k) == spec_find(s0, k) by {
                            lemma_find_update(s0, i as int, s1[i as int], k);
                        }
                        assert(forall|j: int|
                            0 <= j < s1.len() && j != i ==> s1[j] == #[trigger] s0[j]);
                        assert forall|other: Seq<char>| other != symbol@ implies #[trigger] final(self).alerts_of(other) == old(self).alerts_of(other) by {
                            lemma_find_props(s0, other);
                        }
                    }
                }
            },
            None => {
                proof {
                    lemma_find_props(s0, symbol@);
                }
            },
        }
    }

    /// Replace (or create) a symbol's whole alert list.
    pub fn set_alerts(&mut self, symbol: &str, list: Vec<(AlertCondition, i64)>)
        requires
            old(self).wf(),
            forall|k: int| 0 <= k < list@.len() ==> 0 <= (#[trigger] list@[k]).1 <= MAX_AMOUNT,
        ensures
            final(self).wf(),
            final(self).alerts_of(symbol@) == list@,
            forall|other: Seq<char>|
                other != symbol@ ==> #[trigger] final(self).alerts_of(other) == old(self).alerts_of(other),
    {
        let ghost s0 = self.entries@;
        match find_index(&self.entries, symbol) {
            Some(i) => {
                proof {
                    lemma_find_props(s0, symbol@);
                }
                let mut entry = self.entries.remove(i);
                entry.alerts = list;
                self.entries.insert(i, entry);
                proof {
                    let s1 = self.entries@;
                    assert(s1 =~= s0.update(i as int, s1[i as int]));
                    assert(s1[i as int].key() == s0[i as int].key());
                    assert forall|k: Seq<char>| #[trigger]
                        spec_find(s1, k) == spec_find(s0, k) by {
                        lemma_find_update(s0, i as int, s1[i as int], k);
                    }
                    assert(forall|j: int|
                        0 <= j < s1.len() && j != i ==> s1[j] == #[trigger] s0[j]);
                    assert forall|other: Seq<char>| other != symbol@ implies #[trigger] final(self).alerts_of(other) == old(self).alerts_of(other) by {
                        lemma_find_props(s0, other);
                    }
                }
            },
            None => {
                proof {
                    lemma_find_props(s0, symbol@);
                }
                let entry = AlertEntry { symbol: String::from_str(symbol), alerts: list };
                self.entries.push(entry);
                proof {
                    let s1 = self.entries@;
                    let v = s1[s1.len() - 1];
                    assert(s1 =~= s0.push(v));
                    assert(v.key() == symbol@);
                    lemma_find_push(s0, v, symbol@);
                    assert forall|other: Seq<char>| other != symbol@ implies #[trigger] final(self).alerts_of(other) == old(self).alerts_of(other) by {
                        lemma_find_props(s0, other);
                        lemma_find_push(s0, v, other);
                    }
                }
            },
        }
    }

    /// The symbols that carry at least one alert, each exactly once.
    pub fn symbols_with_alerts(&self) -> (r: Vec<String>)
        requires
            self.wf(),
        ensures
            forall|i: int, j: int| 0 <= i < j < r@.len() ==> (#[trigger] r@[i])@ != (#[trigger] r@[j])@,
            forall|i: int| 0 <= i < r@.len() ==> (#[trigger] self.alerts_of(r@[i]@)).len() > 0,
            forall|sym: Seq<char>|
                (#[trigger] self.alerts_of(sym)).len() > 0 ==> exists|i: int|
                    0 <= i < r@.len() && r@[i]@ == sym,
    {
        let n = self.entries.len();
        let mut out: Vec<String> = Vec::new();
        let mut i: usize = 0;
        while i < n
            invariant
                self.wf(),
                n == self.entries@.len(),
                i <= n,
                forall|a: int, b: int|
                    0 <= a < b < out@.len() ==> (#[trigger] out@[a])@ != (#[trigger] out@[b])@,
                forall|a: int|
                    0 <= a < out@.len() ==> (#[trigger] self.alerts_of(out@[a]@)).len() > 0,
                forall|a: int|
                    0 <= a < out@.len() ==> exists|j: int|
                        0 <= j < i && (#[trigger] out@[a])@ == self.entries@[j].key(),
                forall|j: int|
                    0 <= j < i && self.entries@[j].alerts@.len() > 0 ==> exists|a: int|
                        0 <= a < out@.len() && (#[trigger] out@[a])@ == self.entries@[j].key(),
            decreases n - i,
        {
            let ghost k0 = out@;
            if self.entries[i].alerts.len() > 0 {
                proof {
                    lemma_find_props(self.entries@, self.entries@[i as int].key());
                    lemma_find_at(self.entries@, self.entries@[i as int].key(), i as int);
                }
                out.push(self.entries[i].symbol.clone());
                proof {
                    assert(out@.last()@ == self.entries@[i as int].key());
                    assert(self.alerts_of(self.entries@[i as int].key())
                        == self.entries@[i as int].alerts@);
                    assert forall|a: int, b: int|
                        0 <= a < b < out@.len() implies (#[trigger] out@[a])@ != (
                    #[trigger] out@[b])@ by {
                        if b == out@.len() - 1 {
                            assert(out@[a] == k0[a]);
                            let j = choose|j: int|
                                0 <= j < i && (#[trigger] k0[a])@ == self.entries@[j].key();
                            assert(self.entries@[j].key() != self.entries@[i as int].key());
                        } else {
                            assert(out@[a] == k0[a]);
                            assert(out@[b] == k0[b]);
                        }
                    }
                    assert forall|j: int|
                        0 <= j < i + 1 && self.entries@[j].alerts@.len() > 0 implies exists|a: int|
                        0 <= a < out@.len() && (#[trigger] out@[a])@ == self.entries@[j].key() by {
                        if j == i {
                            assert(out@[out@.len() - 1]@ == self.entries@[j].key());
                        } else {
                            let a = choose|a: int|
                                0 <= a < k0.len() && (#[trigger] k0[a])@ == self.entries@[j].key();
                            assert(out@[a]@ == self.entries@[j].key());
                        }
                    }
                    assert forall|a: int| 0 <= a < out@.len() implies exists|j: int|
                        0 <= j < i + 1 && (#[trigger] out@[a])@ == self.entries@[j].key() by {
                        if a < out@.len() - 1 {
                            let j = choose|j: int|
                                0 <= j < i && (#[trigger] k0[a])@ == self.entries@[j].key();
                            assert(out@[a]@ == self.entries@[j].key());
                        } else {
                            assert(out@[a]@ == self.entries@[i as int].key());
                        }
                    }
                }
            } else {
                proof {
                    assert forall|j: int|
                        0 <= j < i + 1 && self.entries@[j].alerts@.len() > 0 implies exists|a: int|
                        0 <= a < out@.len() && (#[trigger] out@[a])@ == self.entries@[j].key() by {
                        if j < i {
                            let a = choose|a: int|
                                0 <= a < k0.len() && (#[trigger] k0[a])@ == self.entries@[j].key();
                            assert(out@[a]@ == self.entries@[j].key());
                        }
                    }
                }
            }
            i += 1;
        }
        proof {
            assert forall|sym: Seq<char>| (#[trigger] self.alerts_of(sym)).len() > 0 implies exists|a: int|
                0 <= a < out@.len() && out@[a]@ == sym by {
                lemma_find_props(self.entries@, sym);
                let f = spec_find(self.entries@, sym);
                assert(0 <= f < self.entries@.len() && self.entries@[f].key() == sym);
            }
        }
        out
    }

    /// The alerts configured for a symbol, as a fresh vector.
    pub fn alerts_for(&self, symbol: &str) -> (r: Vec<(AlertCondition, i64)>)
        requires
            self.wf(),
        ensures
            r@ == self.alerts_of(symbol@),
    {
        match find_index(&self.entries, symbol) {
            Some(i) => {
                let src = &self.entries[i].alerts;
                let m = src.len();
                let mut out: Vec<(AlertCondition, i64)> = Vec::new();
                let mut j: usize = 0;
                while j < m
                    invariant
                        m == src@.len(),
                        j <= m,
                        out@ =~= src@.subrange(0, j as int),
                    decreases m - j,
                {
                    out.push(src[j]);
                    j += 1;
                }
                proof {
                    assert(src@.subrange(0, m as int) =~= src@);
                }
                out
            },
            None => Vec::new(),
        }
    }
}

/// The firings one quote produces from its alert list, in order.
pub open spec fn spec_quote_triggered(q: Quote, alerts: Seq<(AlertCondition, i64)>) -> Seq<
    TriggeredAlert,
>
    decreases alerts.len(),
{
    if alerts.len() == 0 {
        Seq::empty()
    } else {
        let rest = spec_quote_triggered(q, alerts.drop_last());
        let a = alerts.last();
        if spec_triggers(a.0, a.1 as int, q.price as int) {
            rest.push(
                TriggeredAlert { symbol: q.symbol, condition: a.0, target: a.1, price: q.price },
            )
        } else {
            rest
        }
    }
}

/// The whole triggered list one evaluation pass produces: quotes in
/// order, each quote's alerts in order.
pub open spec fn spec_check_alerts(quotes: Seq<Quote>, book: AlertBook) -> Seq<TriggeredAlert>
    decreases quotes.len(),
{
    if quotes.len() == 0 {
        Seq::empty()
    } else {
        spec_check_alerts(quotes.drop_last(), book) + spec_quote_triggered(
            quotes.last(),
            book.alerts_of(quotes.last().symbol@),
        )
    }
}

/// Rebuild the triggered list for the given quotes.
pub fn check_alerts(quotes: &Vec<Quote>, book: &AlertBook) -> (r: Vec<TriggeredAlert>)
    requires
        book.wf(),
        forall|i: int| 0 <= i < quotes@.len() ==> (#[trigger] quotes@[i]).wf(),
    ensures
        r@ == spec_check_alerts(quotes@, *book),
{
    let mut out: Vec<TriggeredAlert> = Vec::new();
    let n = quotes.len();
    let mut i: usize = 0;
    while i < n
        invariant
            book.wf(),
            n == quotes@.len(),
            forall|k: int| 0 <= k < quotes@.len() ==> (#[trigger] quotes@[k]).wf(),
            i <= n,
            out@ == spec_check_alerts(quotes@.subrange(0, i as int), *book),
        decreases n - i,
    {
        let q = &quotes[i];
        let alerts = book.alerts_for(q.symbol.as_str());
        proof {
            book.lemma_targets_bounded(q.symbol@);
        }
        let m = alerts.len();
        let mut j: usize = 0;
        while j < m
            invariant
                book.wf(),
                n == quotes@.len(),
                forall|k: int| 0 <= k < quotes@.len() ==> (#[trigger] quotes@[k]).wf(),
                i < n,
                q == &quotes@[i as int],
                alerts@ == book.alerts_of(q.symbol@),
                forall|k: int|
                    0 <= k < alerts@.len() ==> 0 <= (#[trigger] alerts@[k]).1 <= MAX_AMOUNT,
                m == alerts@.len(),
                j <= m,
                out@ == spec_check_alerts(quotes@.subrange(0, i as int), *book)
                    + spec_quote_triggered(*q, alerts@.subrange(0, j as int)),
            decreases m - j,
        {
            proof {
                assert(alerts@.subrange(0, j + 1) =~= alerts@.subrange(0, j as int).push(
                    alerts@[j as int],
                ));
                assert(alerts@.subrange(0, j + 1).drop_last() =~= alerts@.subrange(0, j as int));
            }
            let (cond, target) = alerts[j];
            if triggers(cond, target, q.price) {
                out.push(
                    TriggeredAlert {
                        symbol: q.symbol.clone(),
                        condition: cond,
                        target,
                        price: q.price,
                    },
                );
            }
            j += 1;
        }
        proof {
            assert(alerts@.subrange(0, m as int) =~= alerts@);
            assert(quotes@.subrange(0, i + 1) =~= quotes@.subrange(0, i as int).push(
                quotes@[i as int],
            ));
            assert(quotes@.subrange(0, i + 1).drop_last() =~= quotes@.subrange(0, i as int));
        }
        i += 1;
    }
    proof {
        assert(quotes@.subrange(0, n as int) =~= quotes@);
    }
    out
}

} // verus!
