//! Short-lived cache of last-known-good quotes.
//!
//! Entries carry the instant they were stored; a read past the
//! time-to-live behaves as a miss, never as stale data. All methods
//! take the current time, so the clock is the caller's.

use vstd::prelude::*;
use crate::quote::Quote;
use crate::keyed::{
    Keyed, spec_find, find_index, lemma_find_props, lemma_find_update, lemma_find_push,
    lemma_find_none,
};
use crate::symbol::str_eq;

verus! {

/// How long a cached quote stays fresh, in milliseconds.
pub const CACHE_TTL_MS: u64 = 30_000;

/// One cached quote with the instant it was stored.
#[derive(Debug)]
pub struct CacheEntry {
    /// The quote's symbol, the cache key.
    pub symbol: String,
    /// The cached quote.
    pub quote: Quote,
    /// When it was stored, in the caller's clock.
    pub stored_at: u64,
}

impl Keyed for CacheEntry {
    open spec fn key(&self) -> Seq<char> {
        self.symbol@
    }

    fn key_is(&self, sym: &str) -> (r: bool) {
        str_eq(self.symbol.as_str(), sym)
    }
}

/// A stored instant is fresh at `now` while less than the time-to-live
/// has elapsed; a clock that moved backwards counts as stale.
pub open spec fn spec_fresh(stored_at: u64, now: u64) -> bool {
    now >= stored_at && now - stored_at < CACHE_TTL_MS
}

/// Freshness-aware cache of the last good quote per symbol.
#[derive(Debug)]
pub struct QuoteCache {
    entries: Vec<CacheEntry>,
}

impl QuoteCache {
    /// Every symbol appears once and each entry's key is its quote's
    /// symbol.
    pub closed spec fn wf(self) -> bool {
        &&& forall|i: int, j: int|
            0 <= i < j < self.entries@.len() ==> (#[trigger] self.entries@[i]).key() != (
            #[trigger] self.entries@[j]).key()
        &&& forall|i: int|
            0 <= i < self.entries@.len() ==> (#[trigger] self.entries@[i]).quote.symbol@
                == self.entries@[i].key()
    }

    /// What the cache stores for a symbol: the quote and its store
    /// instant, regardless of freshness.
    pub closed spec fn entry_of(self, sym: Seq<char>) -> Option<(Quote, u64)> {
        if spec_find(self.entries@, sym) != -1 {
            let e = self.entries@[spec_find(self.entries@, sym)];
            Some((e.quote, e.stored_at))
        } else {
            None
        }
    }

    /// An empty cache.
    pub fn new() -> (r: QuoteCache)
        ensures
            r.wf(),
            forall|sym: Seq<char>| #[trigger] r.entry_of(sym) is None,
    {
        let r = QuoteCache { entries: Vec::new() };
        proof {
            assert forall|sym: Seq<char>| #[trigger] r.entry_of(sym) is None by {
                lemma_find_props(r.entries@, sym);
            }
        }
        r
    }

    /// Store or overwrite the quote under its own symbol.
    pub fn put(&mut self, quote: Quote, now: u64)
        requires
            old(self).wf(),
        ensures
            final(self).wf(),
            final(self).entry_of(quote.symbol@) == Some((quote, now)),
            forall|other: Seq<char>|
                other != quote.symbol@ ==> #[trigger] final(self).entry_of(other) == old(
                    self,
                ).entry_of(other),
    {
        let ghost s0 = self.entries@;
        let sym = quote.symbol.clone();
        match find_index(&self.entries, sym.as_str()) {
            Some(i) => {
                proof {
                    lemma_find_props(s0, sym@);
                }
                let mut entry = self.entries.remove(i);
                entry.quote = quote;
                entry.stored_at = now;
                self.entries.insert(i, entry);
                proof {
                    let s1 = self.entries@;
                    assert(s1 =~= s0.update(i as int, s1[i as int]));
                    assert(s1[i as int].key() == s0[i as int].key());
                    assert forall|k: Seq<char>| #[trigger]
                        spec_find(s1, k) == spec_find(s0, k) by {
                        lemma_find_update(s0, i as int, s1[i as int], k);
                    }
                    assert(forall|j: int|
                        0 <= j < s1.len() && j != i ==> s1[j] == #[trigger] s0[j]);
                    assert forall|other: Seq<char>| other != sym@ implies #[trigger] final(self).entry_of(other) == old(self).entry_of(other) by {
                        lemma_find_props(s0, other);
                    }
                }
            },
            None => {
                proof {
                    lemma_find_props(s0, sym@);
                }
                let entry = CacheEntry { symbol: sym, quote, stored_at: now };
                self.entries.push(entry);
                proof {
                    let s1 = self.entries@;
                    let v = s1[s1.len() - 1];
                    assert(s1 =~= s0.push(v));
                    lemma_find_push(s0, v, v.key());
                    assert forall|other: Seq<char>| other != v.key() implies #[trigger] final(self).entry_of(other) == old(self).entry_of(other) by {
                        lemma_find_props(s0, other);
                        lemma_find_push(s0, v, other);
                    }
                }
            },
        }
    }

    /// The cached quote for a symbol while it is fresh at `now`; a
    /// stale or missing entry reads as absent.
    pub fn get(&self, symbol: &str, now: u64) -> (r: Option<Quote>)
        requires
            self.wf(),
        ensures
            match self.entry_of(symbol@) {
                Some(e) => if spec_fresh(e.1, now) {
                    r == Some(e.0)
                } else {
                    r is None
                },
                None => r is None,
            },
    {
        match find_index(&self.entries, symbol) {
            Some(i) => {
                let e = &self.entries[i];
                if now >= e.stored_at && now - e.stored_at < CACHE_TTL_MS {
                    Some(e.quote.clone())
                } else {
                    None
                }
            },
            None => None,
        }
    }

    /// Drop every entry that is stale at `now`; fresh entries survive
    /// untouched.
    pub fn purge_expired(&mut self, now: u64)
        requires
            old(self).wf(),
        ensures
            final(self).wf(),
            forall|sym: Seq<char>| #[trigger]
                final(self).entry_of(sym) == match old(self).entry_of(sym) {
                    Some(e) => if spec_fresh(e.1, now) {
                        Some(e)
                    } else {
                        None::<(Quote, u64)>
                    },
                    None => None::<(Quote, u64)>,
                },
    {
        let ghost s0 = self.entries@;
        let n = self.entries.len();
        let mut kept: Vec<CacheEntry> = Vec::new();
        let mut i: usize = 0;
        while i < n
            invariant
                old(self).wf(),
                s0 == old(self).entries@,
                n == s0.len(),
                i <= n,
                self.entries@ == s0,
                forall|i2: int, j2: int|
                    0 <= i2 < j2 < kept@.len() ==> (#[trigger] kept@[i2]).key() != (
                    #[trigger] kept@[j2]).key(),
                forall|j: int|
                    0 <= j < kept@.len() ==> (#[trigger] kept@[j]).quote.symbol@
                        == kept@[j].key(),
                forall|sym: Seq<char>| #[trigger]
                    spec_lookup(kept@, sym) == match spec_lookup(s0.subrange(0, i as int), sym) {
                        Some(e) => if spec_fresh(e.1, now) {
                            Some(e)
                        } else {
                            None::<(Quote, u64)>
                        },
                        None => None::<(Quote, u64)>,
                    },
            decreases n - i,
        {
            let ghost prefix = s0.subrange(0, i as int);
            let ghost prefix1 = s0.subrange(0, i as int + 1);
            let ghost e = s0[i as int];
            proof {
                assert(prefix1 =~= prefix.push(e));
                assert(forall|j: int| 0 <= j < i ==> (#[trigger] prefix[j]).key() != e.key());
                lemma_find_none(prefix, e.key());
            }
            let fresh = now >= self.entries[i].stored_at && now - self.entries[i].stored_at
                < CACHE_TTL_MS;
            let ghost k0 = kept@;
            proof {
                assert(spec_lookup(k0, e.key()) is None);
                lemma_find_props(k0, e.key());
            }
            if fresh {
                let entry = self.entries[i].clone_entry();
                kept.push(entry);
                proof {
                    let v = kept@[kept@.len() - 1];
                    assert(kept@ =~= k0.push(v));
                    assert(v == e);
                    assert forall|sym: Seq<char>| #[trigger]
                        spec_lookup(kept@, sym) == (match spec_lookup(prefix1, sym) {
                            Some(p) => if spec_fresh(p.1, now) {
                                Some(p)
                            } else {
                                None::<(Quote, u64)>
                            },
                            None => None::<(Quote, u64)>,
                        }) by {
                        assert(spec_lookup(k0, sym) == (match spec_lookup(prefix, sym) {
                            Some(p) => if spec_fresh(p.1, now) {
                                Some(p)
                            } else {
                                None::<(Quote, u64)>
                            },
                            None => None::<(Quote, u64)>,
                        }));
                        lemma_find_props(prefix, sym);
                        lemma_find_push(prefix, e, sym);
                        lemma_find_props(k0, sym);
                        lemma_find_push(k0, v, sym);
                        if sym == e.key() {
                            lemma_find_none(prefix, sym);
                        }
                    }
                }
            } else {
                proof {
                    assert forall|sym: Seq<char>| #[trigger]
                        spec_lookup(kept@, sym) == (match spec_lookup(prefix1, sym) {
                            Some(p) => if spec_fresh(p.1, now) {
                                Some(p)
                            } else {
                                None::<(Quote, u64)>
                            },
                            None => None::<(Quote, u64)>,
                        }) by {
                        assert(spec_lookup(k0, sym) == (match spec_lookup(prefix, sym) {
                            Some(p) => if spec_fresh(p.1, now) {
                                Some(p)
                            } else {
                                None::<(Quote, u64)>
                            },
                            None => None::<(Quote, u64)>,
                        }));
                        assert(kept@ == k0);
                        lemma_find_props(prefix, sym);
                        lemma_find_push(prefix, e, sym);
                        if sym == e.key() {
                            lemma_find_none(prefix, sym);
                        }
                    }
                }
            }
            i += 1;
        }
        proof {
            assert(s0.subrange(0, n as int) =~= s0);
        }
        self.entries = kept;
        proof {
            assert forall|sym: Seq<char>| #[trigger]
                final(self).entry_of(sym) == (match old(self).entry_of(sym) {
                    Some(p) => if spec_fresh(p.1, now) {
                        Some(p)
                    } else {
                        None::<(Quote, u64)>
                    },
                    None => None::<(Quote, u64)>,
                }) by {
                assert(spec_lookup(kept@, sym) == (match spec_lookup(s0, sym) {
                    Some(p) => if spec_fresh(p.1, now) {
                        Some(p)
                    } else {
                        None::<(Quote, u64)>
                    },
                    None => None::<(Quote, u64)>,
                }));
            }
        }
    }
}

/// What a sequence of cache entries stores for a symbol.
pub open spec fn spec_lookup(entries: Seq<CacheEntry>, sym: Seq<char>) -> Option<(Quote, u64)> {
    if spec_find(entries, sym) != -1 {
        let e = entries[spec_find(entries, sym)];
        Some((e.quote, e.stored_at))
    } else {
        None
    }
}

impl CacheEntry {
    /// A field-for-field copy of the entry.
    fn clone_entry(&self) -> (r: CacheEntry)
        ensures
            r == *self,
    {
        CacheEntry {
            symbol: self.symbol.clone(),
            quote: self.quote.clone(),
            stored_at: self.stored_at,
        }
    }
}

} // verus!
