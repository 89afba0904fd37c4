//! The application state controller.
//!
//! One owned state bag composes the engine: the current quotes and
//! failures, holdings, per-symbol history, alerts, cache, scheduler,
//! sort and selection state, and the flags a renderer reads. Only its
//! methods mutate it, one logical thread at a time.

use vstd::prelude::*;
use crate::alerts::{AlertBook, AlertCondition, TriggeredAlert, check_alerts, spec_check_alerts};
use crate::cache::QuoteCache;
use crate::fetch::BatchResult;
use crate::fmt::{spec_digits, u64_to_string, sparkline_string, spec_glyphs};
use crate::history::{
    History, spec_record, spec_rsi, spec_sma, spec_macd_signal, spec_macd_line,
    spec_spark_levels, RSI_PERIOD, FP_HUNDRED,
};
use crate::keyed::{Keyed, spec_find, find_index, lemma_find_props};
use crate::price::MAX_AMOUNT;
use crate::quote::{Holding, Quote, clamp_i64, spec_fp_mul};
use crate::scheduler::RefreshScheduler;
use crate::sort::{SortDirection, SortOrder, sort_quotes_vec, spec_sorted, spec_stable_sort};
use crate::symbol::str_eq;

verus! {

/// Error messages longer than this are cut and marked with an
/// ellipsis.
pub const MAX_ERROR_LEN: usize = 100;

/// Rows the selection keeps visible without scrolling.
pub const VIEWPORT_HEIGHT: usize = 20;

/// The first visible row after a selection move: pulled up to the
/// selection, pushed down to keep it inside the viewport, otherwise
/// unchanged.
pub open spec fn spec_scroll_after(selected: int, offset: int) -> int {
    if selected < offset {
        selected
    } else if selected >= offset + VIEWPORT_HEIGHT {
        selected - VIEWPORT_HEIGHT + 1
    } else {
        offset
    }
}

/// The interactive alert setup: picking a condition, then typing a
/// price.
#[derive(Debug, Clone)]
pub enum AlertSetupMode {
    /// Choosing among the conditions by index.
    SelectCondition(usize),
    /// Typing a target price for the chosen condition.
    EnterPrice(AlertCondition, String),
}

/// What a session starts from, already parsed and validated by the
/// host.
#[derive(Debug)]
pub struct SessionSettings {
    /// Watched symbols, already expanded and deduplicated.
    pub symbols: Vec<String>,
    /// Portfolio positions, keyed by expanded symbol.
    pub holdings: Vec<Holding>,
    /// Group names, sorted for a stable display.
    pub groups: Vec<String>,
    /// Symbols of each named group.
    pub group_map: Vec<GroupEntry>,
    /// Refresh interval in milliseconds.
    pub interval_ms: u64,
    /// Cycles before the session ends; zero means no bound.
    pub max_iterations: u64,
    /// Initial sort key.
    pub sort_order: SortOrder,
    /// Initial sort direction.
    pub sort_direction: SortDirection,
    /// Non-interactive output mode.
    pub batch_mode: bool,
    /// Interactive commands disabled.
    pub secure_mode: bool,
    /// Start with the holdings view.
    pub show_holdings: bool,
    /// Start with the fundamentals view.
    pub show_fundamentals: bool,
    /// High-contrast rendering.
    pub high_contrast: bool,
    /// Audible alerts enabled.
    pub audio_alerts: bool,
}

impl Keyed for Holding {
    open spec fn key(&self) -> Seq<char> {
        self.symbol@
    }

    fn key_is(&self, sym: &str) -> (r: bool) {
        str_eq(self.symbol.as_str(), sym)
    }
}

/// A named group of symbols.
#[derive(Debug)]
pub struct GroupEntry {
    /// The group's name.
    pub name: String,
    /// The symbols it holds.
    pub symbols: Vec<String>,
}

impl Keyed for GroupEntry {
    open spec fn key(&self) -> Seq<char> {
        self.name@
    }

    fn key_is(&self, sym: &str) -> (r: bool) {
        str_eq(self.name.as_str(), sym)
    }
}

/// When a symbol's quote was last fetched, in the caller's clock.
#[derive(Debug)]
pub struct FetchTime {
    /// The symbol.
    pub symbol: String,
    /// The instant its quote arrived.
    pub fetched_at: u64,
}

impl Keyed for FetchTime {
    open spec fn key(&self) -> Seq<char> {
        self.symbol@
    }

    fn key_is(&self, sym: &str) -> (r: bool) {
        str_eq(self.symbol.as_str(), sym)
    }
}

/// The one mutable state bag of a session.
#[derive(Debug)]
pub struct AppState {
    /// Quotes of the last merged batch, sorted for display.
    pub quotes: Vec<Quote>,
    /// Per-symbol failures of the last batch.
    pub failures: Vec<(String, String)>,
    /// Portfolio positions.
    pub holdings: Vec<Holding>,
    /// Watched symbols.
    pub symbols: Vec<String>,
    /// Refresh scheduling state.
    pub scheduler: RefreshScheduler,
    /// Current sort key.
    pub sort_order: SortOrder,
    /// Current sort direction.
    pub sort_direction: SortDirection,
    /// Completed refresh cycles.
    pub iteration: u64,
    /// Cycles before the session ends; zero means no bound.
    pub max_iterations: u64,
    /// Whether the session keeps running.
    pub running: bool,
    /// Message shown to the user, already truncated.
    pub error: Option<String>,
    /// Selected row.
    pub selected: usize,
    /// First visible row.
    pub scroll_offset: usize,
    /// Help overlay shown.
    pub show_help: bool,
    /// Holdings view shown.
    pub show_holdings: bool,
    /// Fundamentals view shown.
    pub show_fundamentals: bool,
    /// Dashboard view shown.
    pub show_dashboard: bool,
    /// Detail view shown.
    pub show_detail_view: bool,
    /// Non-interactive output mode.
    pub batch_mode: bool,
    /// Interactive commands disabled.
    pub secure_mode: bool,
    /// Index of the active group.
    pub active_group: usize,
    /// Group names.
    pub groups: Vec<String>,
    /// Symbols of each named group.
    pub group_map: Vec<GroupEntry>,
    /// Active search query, lower case.
    pub search_query: Option<String>,
    /// Quotes matching the search.
    pub filtered_quotes: Vec<Quote>,
    /// Search text being typed.
    pub search_input: String,
    /// Whether search input is being taken.
    pub search_mode: bool,
    /// Freshness-aware quote cache.
    pub cache: QuoteCache,
    /// Configured price alerts.
    pub alerts: AlertBook,
    /// Alerts that fired in the last evaluation.
    pub triggered_alerts: Vec<TriggeredAlert>,
    /// Interactive alert setup in progress, with its symbol.
    pub alert_setup: Option<(String, AlertSetupMode)>,
    /// When each symbol's quote was last fetched.
    pub fetch_times: Vec<FetchTime>,
    /// Rolling price history per symbol.
    pub history: History,
    /// High-contrast rendering.
    pub high_contrast: bool,
    /// Audible alerts enabled.
    pub audio_alerts: bool,
}

impl AppState {
    /// The state's invariant: every component is well-formed, every
    /// held quote is well-formed, and the selection stays inside the
    /// table.
    pub open spec fn wf(self) -> bool {
        &&& forall|i: int| 0 <= i < self.quotes@.len() ==> (#[trigger] self.quotes@[i]).wf()
        &&& forall|i: int| 0 <= i < self.holdings@.len() ==> (#[trigger] self.holdings@[i]).wf()
        &&& self.cache.wf()
        &&& self.alerts.wf()
        &&& self.history.wf()
        &&& (self.selected < self.quotes@.len() || self.selected == 0)
    }

    /// A fresh session from the host's settings: nothing fetched,
    /// nothing selected, no error.
    pub fn new(settings: SessionSettings) -> (r: AppState)
        requires
            forall|i: int|
                0 <= i < settings.holdings@.len() ==> (#[trigger] settings.holdings@[i]).wf(),
        ensures
            r.wf(),
            r.quotes@.len() == 0,
            r.failures@.len() == 0,
            r.symbols == settings.symbols,
            r.holdings == settings.holdings,
            r.groups == settings.groups,
            r.group_map == settings.group_map,
            r.scheduler.last_refresh is None,
            r.scheduler.last_attempt is None,
            r.iteration == 0,
            r.max_iterations == settings.max_iterations,
            r.running,
            r.error is None,
            r.selected == 0,
            r.sort_order == settings.sort_order,
            r.sort_direction == settings.sort_direction,
            r.batch_mode == settings.batch_mode,
            r.secure_mode == settings.secure_mode,
            r.triggered_alerts@.len() == 0,
            r.alert_setup is None,
            forall|sym: Seq<char>| #[trigger] r.history.series_of(sym) == Seq::<i64>::empty(),
            forall|sym: Seq<char>| #[trigger] r.cache.entry_of(sym) is None,
            forall|sym: Seq<char>| #[trigger]
                r.alerts.alerts_of(sym) == Seq::<(AlertCondition, i64)>::empty(),
    {
        let history = History::new();

        AppState {
            quotes: Vec::new(),
            failures: Vec::new(),
            holdings: settings.holdings,
            symbols: settings.symbols,
            scheduler: RefreshScheduler::new(settings.interval_ms),
            sort_order: settings.sort_order,
            sort_direction: settings.sort_direction,
            iteration: 0,
            max_iterations: settings.max_iterations,
            running: true,
            error: None,
            selected: 0,
            scroll_offset: 0,
            show_help: false,
            show_holdings: settings.show_holdings,
            show_fundamentals: settings.show_fundamentals,
            show_dashboard: false,
            show_detail_view: false,
            batch_mode: settings.batch_mode,
            secure_mode: settings.secure_mode,
            active_group: 0,
            groups: settings.groups,
            group_map: settings.group_map,
            search_query: None,
            filtered_quotes: Vec::new(),
            search_input: String::new(),
            search_mode: false,
            cache: QuoteCache::new(),
            alerts: AlertBook::new(),
            triggered_alerts: Vec::new(),
            alert_setup: None,
            fetch_times: Vec::new(),
            history,
            high_contrast: settings.high_contrast,
            audio_alerts: settings.audio_alerts,
        }
    }

    /// Stop the session.
    pub fn quit(&mut self)
        requires
            old(self).wf(),
        ensures
            *final(self) == (AppState { running: false, ..*old(self) }),
    {
        self.running = false;
    }

    /// Whether the session is over: stopped, or the iteration cap is
    /// reached.
    pub fn should_quit(&self) -> (r: bool)
        ensures
            r == (!self.running || (self.max_iterations > 0 && self.iteration
                >= self.max_iterations)),
    {
        !self.running || (self.max_iterations > 0 && self.iteration >= self.max_iterations)
    }

    /// Move the selection one row up, scrolling to keep it visible.
    pub fn select_up(&mut self)
        requires
            old(self).wf(),
        ensures
            final(self).wf(),
            old(self).selected > 0 ==> final(self).selected == old(self).selected - 1,
            old(self).selected == 0 ==> final(self).selected == 0,
            final(self).scroll_offset == (if old(self).selected > 0 {
                spec_scroll_after(final(self).selected as int, old(self).scroll_offset as int)
            } else {
                old(self).scroll_offset as int
            }),
            *final(self) == (AppState {
                selected: final(self).selected,
                scroll_offset: final(self).scroll_offset,
                ..*old(self)
            }),
    {
        if self.selected > 0 {
            self.selected = self.selected - 1;
            self.update_scroll_offset();
        }
    }

    /// Move the selection one row down, never past the last quote,
    /// scrolling to keep it visible.
    pub fn select_down(&mut self)
        requires
            old(self).wf(),
        ensures
            final(self).wf(),
            final(self).selected == if old(self).selected + 1 < old(self).quotes@.len() {
                old(self).selected + 1
            } else {
                old(self).selected as int
            },
            final(self).scroll_offset == (if old(self).selected + 1 < old(self).quotes@.len() {
                spec_scroll_after(final(self).selected as int, old(self).scroll_offset as int)
            } else {
                old(self).scroll_offset as int
            }),
            *final(self) == (AppState {
                selected: final(self).selected,
                scroll_offset: final(self).scroll_offset,
                ..*old(self)
            }),
    {
        if self.quotes.len() > 0 && self.selected < self.quotes.len() - 1 {
            self.selected = self.selected + 1;
            self.update_scroll_offset();
        }
    }

    /// Move the selection to the first row.
    pub fn select_top(&mut self)
        requires
            old(self).wf(),
        ensures
            final(self).wf(),
            final(self).selected == 0,
            final(self).scroll_offset == 0,
            final(self).quotes == old(self).quotes,
    {
        self.selected = 0;
        self.scroll_offset = 0;
    }

    /// Move the selection to the last row.
    pub fn select_bottom(&mut self)
        requires
            old(self).wf(),
        ensures
            final(self).wf(),
            final(self).selected == if old(self).quotes@.len() > 0 {
                old(self).quotes@.len() - 1
            } else {
                0int
            },
            final(self).scroll_offset == spec_scroll_after(
                final(self).selected as int,
                old(self).scroll_offset as int,
            ),
            *final(self) == (AppState {
                selected: final(self).selected,
                scroll_offset: final(self).scroll_offset,
                ..*old(self)
            }),
    {
        if self.quotes.len() > 0 {
            self.selected = self.quotes.len() - 1;
        } else {
            self.selected = 0;
        }
        self.update_scroll_offset();
    }

    /// Keep the selected row inside the viewport.
    fn update_scroll_offset(&mut self)
        ensures
            *final(self) == (AppState { scroll_offset: final(self).scroll_offset, ..*old(self) }),
            final(self).scroll_offset == spec_scroll_after(
                old(self).selected as int,
                old(self).scroll_offset as int,
            ),
    {
        if self.selected < self.scroll_offset {
            self.scroll_offset = self.selected;
        } else if self.selected >= VIEWPORT_HEIGHT && self.selected - VIEWPORT_HEIGHT
            >= self.scroll_offset {
            self.scroll_offset = self.selected - VIEWPORT_HEIGHT + 1;
        }
    }

    /// The currently selected quote, when there is one.
    pub fn selected_quote(&self) -> (r: Option<&Quote>)
        ensures
            match r {
                Option::Some(q) => self.selected < self.quotes@.len() && *q == self.quotes@[self.selected as int],
                Option::None => self.selected >= self.quotes@.len(),
            },
    {
        if self.selected < self.quotes.len() {
            Some(&self.quotes[self.selected])
        } else {
            None
        }
    }

    /// Switch to a group by index; out-of-range indices change
    /// nothing. The selection is pulled back into the table.
    pub fn set_active_group(&mut self, index: usize)
        requires
            old(self).wf(),
        ensures
            final(self).wf(),
            index >= old(self).groups@.len() ==> *final(self) == *old(self),
            index < old(self).groups@.len() ==> {
                &&& final(self).active_group == index
                &&& final(self).selected == (if old(self).selected < old(self).quotes@.len() {
                    old(self).selected as int
                } else if old(self).quotes@.len() > 0 {
                    old(self).quotes@.len() - 1
                } else {
                    0int
                })
                &&& *final(self) == (AppState {
                    active_group: final(self).active_group,
                    selected: final(self).selected,
                    ..*old(self)
                })
            },
    {
        if index < self.groups.len() {
            self.active_group = index;
            if self.selected >= self.quotes.len() {
                if self.quotes.len() > 0 {
                    self.selected = self.quotes.len() - 1;
                } else {
                    self.selected = 0;
                }
            }
        }
    }

    /// Toggle the help overlay, outside secure mode.
    pub fn toggle_help(&mut self)
        requires
            old(self).wf(),
        ensures
            final(self).wf(),
            !old(self).secure_mode ==> final(self).show_help == !old(self).show_help,
            old(self).secure_mode ==> final(self).show_help == old(self).show_help,
    {
        if !self.secure_mode {
            self.show_help = !self.show_help;
        }
    }

    /// Toggle the holdings view, turning rival views off.
    pub fn toggle_holdings(&mut self)
        requires
            old(self).wf(),
        ensures
            final(self).wf(),
            !old(self).secure_mode ==> final(self).show_holdings == !old(self).show_holdings,
            !old(self).secure_mode && final(self).show_holdings ==> !final(self).show_fundamentals
                && !final(self).show_dashboard,
            old(self).secure_mode ==> *final(self) == *old(self),
    {
        if !self.secure_mode {
            self.show_holdings = !self.show_holdings;
            if self.show_holdings {
                self.show_fundamentals = false;
                self.show_dashboard = false;
            }
        }
    }

    /// Toggle the fundamentals view, turning rival views off.
    pub fn toggle_fundamentals(&mut self)
        requires
            old(self).wf(),
        ensures
            final(self).wf(),
            !old(self).secure_mode ==> final(self).show_fundamentals == !old(self).show_fundamentals,
            !old(self).secure_mode && final(self).show_fundamentals ==> !final(self).show_holdings && !final(self).show_dashboard,
            old(self).secure_mode ==> *final(self) == *old(self),
    {
        if !self.secure_mode {
            self.show_fundamentals = !self.show_fundamentals;
            if self.show_fundamentals {
                self.show_holdings = false;
                self.show_dashboard = false;
            }
        }
    }

    /// Toggle the dashboard view, turning rival views off.
    pub fn toggle_dashboard(&mut self)
        requires
            old(self).wf(),
        ensures
            final(self).wf(),
            !old(self).secure_mode ==> final(self).show_dashboard == !old(self).show_dashboard,
            !old(self).secure_mode && final(self).show_dashboard ==> !final(self).show_holdings
                && !final(self).show_fundamentals && !final(self).show_detail_view,
            old(self).secure_mode ==> *final(self) == *old(self),
    {
        if !self.secure_mode {
            self.show_dashboard = !self.show_dashboard;
            if self.show_dashboard {
                self.show_holdings = false;
                self.show_fundamentals = false;
                self.show_detail_view = false;
            }
        }
    }

    /// Toggle the detail view, turning rival views off.
    pub fn toggle_detail_view(&mut self)
        requires
            old(self).wf(),
        ensures
            final(self).wf(),
            !old(self).secure_mode ==> final(self).show_detail_view == !old(self).show_detail_view,
            !old(self).secure_mode && final(self).show_detail_view ==> !final(self).show_dashboard && !final(self).show_holdings && !final(self).show_fundamentals,
            old(self).secure_mode ==> *final(self) == *old(self),
    {
        if !self.secure_mode {
            self.show_detail_view = !self.show_detail_view;
            if self.show_detail_view {
                self.show_dashboard = false;
                self.show_holdings = false;
                self.show_fundamentals = false;
            }
        }
    }
}

/// Copy a vector of strings.
pub fn clone_strings(v: &Vec<String>) -> (r: Vec<String>)
    ensures
        r@ == v@,
{
    let n = v.len();
    let mut out: Vec<String> = Vec::new();
    let mut i: usize = 0;
    while i < n
        invariant
            n == v@.len(),
            i <= n,
            out@ =~= v@.subrange(0, i as int),
        decreases n - i,
    {
        out.push(v[i].clone());
        i += 1;
    }
    proof {
        assert(v@.subrange(0, n as int) =~= v@);
    }
    out
}

/// An error message cut for display: at most `MAX_ERROR_LEN`
/// characters are kept, a long one keeps three fewer and gains an
/// ellipsis.
pub open spec fn spec_error_cut(s: Seq<char>) -> Seq<char> {
    if s.len() <= MAX_ERROR_LEN {
        s
    } else {
        s.subrange(0, MAX_ERROR_LEN - 3) + seq!['…']
    }
}

/// The warning shown when some symbols of a batch failed.
pub open spec fn spec_partial_msg(n: int) -> Seq<char> {
    "Partial data: "@ + spec_digits(n) + " symbol(s) failed"@
}

/// A batch that achieved nothing: no quote arrived, yet symbols were
/// asked for. Such a cycle must not wipe the displayed data.
pub open spec fn spec_total_failure(batch: BatchResult) -> bool {
    batch.quotes@.len() == 0 && batch.failures@.len() > 0
}

/// The error shown when a whole cycle failed.
pub open spec fn spec_total_failure_msg(n: int) -> Seq<char> {
    "All "@ + spec_digits(n) + " symbol(s) failed"@
}

/// A symbol's series after every quote of a batch was recorded, in
/// batch order.
pub open spec fn spec_record_all(orig: Seq<i64>, qs: Seq<Quote>, sym: Seq<char>) -> Seq<i64>
    decreases qs.len(),
{
    if qs.len() == 0 {
        orig
    } else {
        let prev = spec_record_all(orig, qs.drop_last(), sym);
        if qs.last().symbol@ == sym {
            spec_record(prev, qs.last().price)
        } else {
            prev
        }
    }
}

/// A symbol's cache entry after every quote of a batch was stored at
/// `now`, in batch order.
pub open spec fn spec_cache_all(
    orig: Option<(Quote, u64)>,
    qs: Seq<Quote>,
    sym: Seq<char>,
    now: u64,
) -> Option<(Quote, u64)>
    decreases qs.len(),
{
    if qs.len() == 0 {
        orig
    } else {
        let prev = spec_cache_all(orig, qs.drop_last(), sym, now);
        if qs.last().symbol@ == sym {
            Some((qs.last(), now))
        } else {
            prev
        }
    }
}

/// Whether a batch carries a quote for the symbol.
pub open spec fn spec_in_batch(qs: Seq<Quote>, sym: Seq<char>) -> bool {
    exists|i: int| 0 <= i < qs.len() && (#[trigger] qs[i]).symbol@ == sym
}

impl AppState {
    /// When a symbol's quote was last fetched; absent when never.
    pub closed spec fn fetch_time_of(self, sym: Seq<char>) -> Option<u64> {
        if spec_find(self.fetch_times@, sym) != -1 {
            Some(self.fetch_times@[spec_find(self.fetch_times@, sym)].fetched_at)
        } else {
            None
        }
    }

    /// Note the fetch instant of one symbol.
    fn touch_fetch_time(&mut self, symbol: &str, now: u64)
        ensures
            final(self).fetch_times@.len() <= old(self).fetch_times@.len() + 1,
            final(self).fetch_time_of(symbol@) == Some(now),
            forall|other: Seq<char>|
                other != symbol@ ==> #[trigger] final(self).fetch_time_of(other) == old(self).fetch_time_of(other),
            *final(self) == (AppState { fetch_times: final(self).fetch_times, ..*old(self) }),
    {
        let ghost s0 = self.fetch_times@;
        match find_index(&self.fetch_times, symbol) {
            Some(i) => {
                proof {
                    lemma_find_props(s0, symbol@);
                }
                let mut entry = self.fetch_times.remove(i);
                entry.fetched_at = now;
                self.fetch_times.insert(i, entry);
                proof {
                    let s1 = self.fetch_times@;
                    assert(s1 =~= s0.update(i as int, s1[i as int]));
                    assert(s1[i as int].key() == s0[i as int].key());
                    assert forall|k: Seq<char>| #[trigger]
                        spec_find(s1, k) == spec_find(s0, k) by {
                        crate::keyed::lemma_find_update(s0, i as int, s1[i as int], k);
                    }
                    assert(forall|j: int|
                        0 <= j < s1.len() && j != i ==> s1[j] == #[trigger] s0[j]);
                    assert forall|other: Seq<char>| other != symbol@ implies #[trigger] final(self).fetch_time_of(other) == old(self).fetch_time_of(other) by {
                        lemma_find_props(s0, other);
                    }
                }
            },
            None => {
                proof {
                    lemma_find_props(s0, symbol@);
                }
                self.fetch_times.push(
                    FetchTime { symbol: String::from_str(symbol), fetched_at: now },
                );
                proof {
                    let s1 = self.fetch_times@;
                    let v = s1[s1.len() - 1];
                    assert(s1 =~= s0.push(v));
                    crate::keyed::lemma_find_push(s0, v, symbol@);
                    assert forall|other: Seq<char>| other != symbol@ implies #[trigger] final(self).fetch_time_of(other) == old(self).fetch_time_of(other) by {
                        lemma_find_props(s0, other);
                        crate::keyed::lemma_find_push(s0, v, other);
                    }
                }
            },
        }
    }

    /// How old a symbol's data is, in seconds of the caller's clock;
    /// a sentinel of 999 when it was never fetched or the clock moved
    /// back.
    pub fn get_data_age(&self, symbol: &str, now_ms: u64) -> (r: u64)
        ensures
            r == match self.fetch_time_of(symbol@) {
                Option::Some(t) => if now_ms >= t {
                    ((now_ms - t) / 1000) as int
                } else {
                    999int
                },
                Option::None => 999int,
            },
    {
        match find_index(&self.fetch_times, symbol) {
            Some(i) => {
                let t = self.fetch_times[i].fetched_at;
                if now_ms >= t {
                    (now_ms - t) / 1000
                } else {
                    999
                }
            },
            None => 999,
        }
    }

    /// Whether a refresh is due at `now`.
    pub fn needs_refresh(&self, now: u64) -> (r: bool)
        ensures
            r == match self.scheduler.last_refresh {
                Option::None => true,
                Option::Some(t) => now >= t + self.scheduler.interval_ms,
            },
    {
        self.scheduler.needs_refresh(now)
    }

    /// The symbols the current group selection asks for: the active
    /// group's symbols when groups exist and the group is non-empty,
    /// the full watchlist otherwise.
    pub fn active_symbols(&self) -> (r: Vec<String>)
        ensures
            r@ == self.spec_active_symbols(),
    {
        if self.groups.len() == 0 {
            return clone_strings(&self.symbols);
        }
        if self.active_group >= self.groups.len() {
            return clone_strings(&self.symbols);
        }
        let name = &self.groups[self.active_group];
        match find_index(&self.group_map, name.as_str()) {
            Some(i) => {
                if self.group_map[i].symbols.len() > 0 {
                    clone_strings(&self.group_map[i].symbols)
                } else {
                    clone_strings(&self.symbols)
                }
            },
            None => clone_strings(&self.symbols),
        }
    }

    /// What `active_symbols` returns.
    pub closed spec fn spec_active_symbols(self) -> Seq<String> {
        if self.groups@.len() == 0 || self.active_group >= self.groups@.len() {
            self.symbols@
        } else {
            let f = spec_find(self.group_map@, self.groups@[self.active_group as int]@);
            if f != -1 && self.group_map@[f].symbols@.len() > 0 {
                self.group_map@[f].symbols@
            } else {
                self.symbols@
            }
        }
    }

    /// Set the user-visible error, cut to the display bound.
    pub fn set_error(&mut self, msg: &str)
        requires
            old(self).wf(),
        ensures
            final(self).wf(),
            (match final(self).error {
                Option::Some(m) => m@ == spec_error_cut(msg@),
                Option::None => false,
            }),
            *final(self) == (AppState { error: final(self).error, ..*old(self) }),
    {
        proof {
            reveal_strlit("…");
        }
        let n = msg.unicode_len();
        let t = if n > MAX_ERROR_LEN {
            let prefix = msg.substring_char(0, MAX_ERROR_LEN - 3);
            let cut = String::from_str(prefix).concat("…");
            proof {
                assert(cut@ =~= spec_error_cut(msg@));
            }
            cut
        } else {
            String::from_str(msg)
        };
        self.error = Some(t);
    }

    /// Re-sort the quote table by the current key and direction.
    pub fn sort_quotes(&mut self)
        requires
            old(self).wf(),
        ensures
            final(self).wf(),
            final(self).quotes@.to_multiset() == old(self).quotes@.to_multiset(),
            spec_sorted(final(self).quotes@, final(self).sort_order, final(self).sort_direction),
            final(self).quotes@ == spec_stable_sort(
                old(self).quotes@,
                final(self).sort_order,
                final(self).sort_direction,
            ),
            *final(self) == (AppState {
                quotes: final(self).quotes,
                selected: final(self).selected,
                ..*old(self)
            }),
    {
        let order = self.sort_order;
        let dir = self.sort_direction;
        sort_quotes_vec(&mut self.quotes, order, dir);
        if self.selected >= self.quotes.len() {
            self.selected = 0;
        }
        proof {
            let s0 = old(self).quotes@;
            let s1 = final(self).quotes@;
            s0.to_multiset_ensures();
            s1.to_multiset_ensures();
            assert(s1.len() == s0.len());
            assert forall|i: int| 0 <= i < s1.len() implies (#[trigger] s1[i]).wf() by {
                assert(s1.to_multiset().contains(s1[i]));
                assert(s0.contains(s1[i]));
            }
        }
    }

    /// Flip the sort direction and re-sort.
    pub fn toggle_sort_direction(&mut self)
        requires
            old(self).wf(),
        ensures
            final(self).wf(),
            final(self).sort_direction == (if old(self).sort_direction
                == SortDirection::Ascending {
                SortDirection::Descending
            } else {
                SortDirection::Ascending
            }),
            final(self).sort_order == old(self).sort_order,
            final(self).quotes@.to_multiset() == old(self).quotes@.to_multiset(),
            spec_sorted(final(self).quotes@, final(self).sort_order, final(self).sort_direction),
            final(self).quotes@ == spec_stable_sort(
                old(self).quotes@,
                final(self).sort_order,
                final(self).sort_direction,
            ),
    {
        self.sort_direction = self.sort_direction.toggle();
        self.sort_quotes();
    }

    /// Advance to the next sort key and re-sort.
    pub fn next_sort_order(&mut self)
        requires
            old(self).wf(),
        ensures
            final(self).wf(),
            final(self).sort_order == (match old(self).sort_order {
                SortOrder::Symbol => SortOrder::Name,
                SortOrder::Name => SortOrder::Price,
                SortOrder::Price => SortOrder::Change,
                SortOrder::Change => SortOrder::ChangePercent,
                SortOrder::ChangePercent => SortOrder::Volume,
                SortOrder::Volume => SortOrder::MarketCap,
                SortOrder::MarketCap => SortOrder::Symbol,
            }),
            final(self).quotes@.to_multiset() == old(self).quotes@.to_multiset(),
            spec_sorted(final(self).quotes@, final(self).sort_order, final(self).sort_direction),
            final(self).quotes@ == spec_stable_sort(
                old(self).quotes@,
                final(self).sort_order,
                final(self).sort_direction,
            ),
    {
        self.sort_order = self.sort_order.next();
        self.sort_quotes();
    }

    /// Choose a sort key: choosing the current one flips the
    /// direction, a new one starts descending. Re-sorts either way.
    pub fn set_sort_order(&mut self, order: SortOrder)
        requires
            old(self).wf(),
        ensures
            final(self).wf(),
            old(self).sort_order == order ==> final(self).sort_order == order && final(self).sort_direction == (if old(self).sort_direction == SortDirection::Ascending {
                SortDirection::Descending
            } else {
                SortDirection::Ascending
            }),
            old(self).sort_order != order ==> final(self).sort_order == order && final(self).sort_direction == SortDirection::Descending,
            final(self).quotes@.to_multiset() == old(self).quotes@.to_multiset(),
            spec_sorted(final(self).quotes@, final(self).sort_order, final(self).sort_direction),
            final(self).quotes@ == spec_stable_sort(
                old(self).quotes@,
                final(self).sort_order,
                final(self).sort_direction,
            ),
    {
        if self.sort_order == order {
            self.sort_direction = self.sort_direction.toggle();
        } else {
            self.sort_order = order;
            self.sort_direction = SortDirection::Descending;
        }
        self.sort_quotes();
    }
}

/// Pushing a quote widens batch membership by exactly its symbol.
proof fn lemma_in_batch_push(qs: Seq<Quote>, q: Quote, sym: Seq<char>)
    ensures
        spec_in_batch(qs.push(q), sym) == (spec_in_batch(qs, sym) || q.symbol@ == sym),
{
    let qs1 = qs.push(q);
    if spec_in_batch(qs, sym) {
        let i = choose|i: int| 0 <= i < qs.len() && (#[trigger] qs[i]).symbol@ == sym;
        assert(qs1[i].symbol@ == sym);
    }
    if q.symbol@ == sym {
        assert(qs1[qs.len() as int].symbol@ == sym);
    }
    if spec_in_batch(qs1, sym) {
        let i = choose|i: int| 0 <= i < qs1.len() && (#[trigger] qs1[i]).symbol@ == sym;
        if i < qs.len() {
            assert(qs[i].symbol@ == sym);
        }
    }
}

impl AppState {
    /// Merge one fetch cycle at `now`. A cycle with any successes
    /// replaces the quotes and failures, stamps and caches every
    /// arrived quote, records its price, re-sorts, advances the cycle
    /// counter, marks the refresh, surfaces a partial-failure warning,
    /// and re-evaluates the alerts. A total failure — no successes,
    /// some failures — only surfaces the failures and a bounded error,
    /// keeping the displayed quotes and every derived table untouched.
    pub fn apply_batch(&mut self, batch: BatchResult, now: u64)
        requires
            old(self).wf(),
            forall|i: int| 0 <= i < batch.quotes@.len() ==> (#[trigger] batch.quotes@[i]).wf(),
        ensures
            final(self).wf(),
            final(self).failures == batch.failures,
            spec_total_failure(batch) ==> *final(self) == (AppState {
                failures: final(self).failures,
                error: final(self).error,
                ..*old(self)
            }),
            spec_total_failure(batch) ==> (match final(self).error {
                Option::Some(m) => m@ == spec_error_cut(
                    spec_total_failure_msg(batch.failures@.len() as int),
                ),
                Option::None => false,
            }),
            !spec_total_failure(batch) ==> {
                &&& final(self).quotes@.to_multiset() == batch.quotes@.to_multiset()
                &&& spec_sorted(
                    final(self).quotes@,
                    final(self).sort_order,
                    final(self).sort_direction,
                )
                &&& final(self).iteration == (if old(self).iteration < u64::MAX {
                    old(self).iteration + 1
                } else {
                    old(self).iteration as int
                })
                &&& final(self).scheduler.last_refresh == Some(now)
                &&& final(self).triggered_alerts@ == spec_check_alerts(
                    final(self).quotes@,
                    final(self).alerts,
                )
                &&& (forall|sym: Seq<char>| #[trigger]
                    final(self).history.series_of(sym) == spec_record_all(
                        old(self).history.series_of(sym),
                        batch.quotes@,
                        sym,
                    ))
                &&& (forall|sym: Seq<char>| #[trigger]
                    final(self).cache.entry_of(sym) == spec_cache_all(
                        old(self).cache.entry_of(sym),
                        batch.quotes@,
                        sym,
                        now,
                    ))
                &&& (forall|sym: Seq<char>|
                    spec_in_batch(batch.quotes@, sym) ==> #[trigger] final(self).fetch_time_of(
                        sym,
                    ) == Some(now))
                &&& (forall|sym: Seq<char>|
                    !spec_in_batch(batch.quotes@, sym) ==> #[trigger] final(self).fetch_time_of(
                        sym,
                    ) == old(self).fetch_time_of(sym))
                &&& (batch.failures@.len() == 0 ==> final(self).error is None)
                &&& (batch.failures@.len() > 0 ==> (match final(self).error {
                    Option::Some(m) => m@ == spec_error_cut(
                        spec_partial_msg(batch.failures@.len() as int),
                    ),
                    Option::None => false,
                }))
            },
            final(self).sort_order == old(self).sort_order,
            final(self).sort_direction == old(self).sort_direction,
            final(self).alerts == old(self).alerts,
            final(self).holdings == old(self).holdings,
            final(self).symbols == old(self).symbols,
    {
        if batch.quotes.len() == 0 && batch.failures.len() > 0 {
            let count = batch.failures.len();
            self.failures = batch.failures;
            let msg = String::from_str("All ").concat(
                u64_to_string(count as u64).as_str(),
            ).concat(" symbol(s) failed");
            proof {
                reveal_strlit("All ");
                reveal_strlit(" symbol(s) failed");
                assert(msg@ =~= spec_total_failure_msg(count as int));
            }
            self.set_error(msg.as_str());
            return ;
        }
        let ghost qs = batch.quotes@;
        let n = batch.quotes.len();
        let mut i: usize = 0;
        while i < n
            invariant
                old(self).wf(),
                n == qs.len(),
                i <= n,
                batch.quotes@ == qs,
                forall|k: int| 0 <= k < qs.len() ==> (#[trigger] qs[k]).wf(),
                self.history.wf(),
                self.cache.wf(),
                *self == (AppState {
                    history: self.history,
                    cache: self.cache,
                    fetch_times: self.fetch_times,
                    ..*old(self)
                }),
                forall|sym: Seq<char>| #[trigger]
                    self.history.series_of(sym) == spec_record_all(
                        old(self).history.series_of(sym),
                        qs.subrange(0, i as int),
                        sym,
                    ),
                forall|sym: Seq<char>| #[trigger]
                    self.cache.entry_of(sym) == spec_cache_all(
                        old(self).cache.entry_of(sym),
                        qs.subrange(0, i as int),
                        sym,
                        now,
                    ),
                forall|sym: Seq<char>|
                    spec_in_batch(qs.subrange(0, i as int), sym) ==> #[trigger] self.fetch_time_of(
                        sym,
                    ) == Some(now),
                forall|sym: Seq<char>|
                    !spec_in_batch(qs.subrange(0, i as int), sym) ==> #[trigger] self.fetch_time_of(
                        sym,
                    ) == old(self).fetch_time_of(sym),
            decreases n - i,
        {
            let ghost prefix = qs.subrange(0, i as int);
            let ghost prefix1 = qs.subrange(0, i as int + 1);
            proof {
                assert(prefix1 =~= prefix.push(qs[i as int]));
                assert(prefix1.drop_last() =~= prefix);
            }
            let ghost st0 = *self;
            let ghost h0 = self.history;
            let ghost c0 = self.cache;
            let q = &batch.quotes[i];
            self.touch_fetch_time(q.symbol.as_str(), now);
            let ghost st1 = *self;
            self.cache.put(q.clone(), now);
            self.history.record(q.symbol.as_str(), q.price);
            proof {
                assert forall|sym: Seq<char>| #[trigger]
                    self.history.series_of(sym) == spec_record_all(
                        old(self).history.series_of(sym),
                        prefix1,
                        sym,
                    ) by {
                    if sym != qs[i as int].symbol@ {
                        assert(self.history.series_of(sym) == h0.series_of(sym));
                    }
                }
                assert forall|sym: Seq<char>| #[trigger]
                    self.cache.entry_of(sym) == spec_cache_all(
                        old(self).cache.entry_of(sym),
                        prefix1,
                        sym,
                        now,
                    ) by {
                    if sym != qs[i as int].symbol@ {
                        assert(self.cache.entry_of(sym) == c0.entry_of(sym));
                    }
                }
                assert forall|sym: Seq<char>|
                    spec_in_batch(prefix1, sym) implies #[trigger] self.fetch_time_of(sym) == Some(
                    now,
                ) by {
                    lemma_in_batch_push(prefix, qs[i as int], sym);
                    assert(self.fetch_times == st1.fetch_times);
                    assert(self.fetch_time_of(sym) == st1.fetch_time_of(sym));
                    if sym == qs[i as int].symbol@ {
                        assert(st1.fetch_time_of(sym) == Some(now));
                    } else {
                        assert(st1.fetch_time_of(sym) == st0.fetch_time_of(sym));
                        assert(spec_in_batch(prefix, sym));
                        assert(st0.fetch_time_of(sym) == Some(now));
                    }
                }
                assert forall|sym: Seq<char>|
                    !spec_in_batch(prefix1, sym) implies #[trigger] self.fetch_time_of(sym) == old(self).fetch_time_of(sym) by {
                    lemma_in_batch_push(prefix, qs[i as int], sym);
                    assert(sym != qs[i as int].symbol@);
                    assert(self.fetch_times == st1.fetch_times);
                    assert(self.fetch_time_of(sym) == st1.fetch_time_of(sym));
                    assert(st1.fetch_time_of(sym) == st0.fetch_time_of(sym));
                    assert(!spec_in_batch(prefix, sym));
                    assert(st0.fetch_time_of(sym) == old(self).fetch_time_of(sym));
                }
            }
            i += 1;
        }
        proof {
            assert(qs.subrange(0, n as int) =~= qs);
        }
        let ghost stx = *self;
        let failure_count = batch.failures.len();
        self.failures = batch.failures;
        self.quotes = batch.quotes;
        if self.selected >= self.quotes.len() {
            self.selected = 0;
        }
        self.sort_quotes();
        if self.iteration < u64::MAX {
            self.iteration = self.iteration + 1;
        }
        self.scheduler.mark_refreshed(now);
        if failure_count > 0 {
            let msg = String::from_str("Partial data: ").concat(
                u64_to_string(failure_count as u64).as_str(),
            ).concat(" symbol(s) failed");
            proof {
                assert(msg@ =~= spec_partial_msg(failure_count as int));
            }
            self.set_error(msg.as_str());
        } else {
            self.error = None;
        }
        let trig = check_alerts(&self.quotes, &self.alerts);
        self.triggered_alerts = trig;
        proof {
            assert(self.fetch_times == stx.fetch_times);
            assert forall|sym: Seq<char>| #[trigger]
                self.fetch_time_of(sym) == stx.fetch_time_of(sym) by {}
        }
    }
}


/// Total value of the held positions at the batch's prices: each quote
/// with a matching holding contributes quantity times price.
pub open spec fn spec_portfolio_value(qs: Seq<Quote>, hs: Seq<Holding>) -> int
    decreases qs.len(),
{
    if qs.len() == 0 {
        0
    } else {
        let rest = spec_portfolio_value(qs.drop_last(), hs);
        let f = spec_find(hs, qs.last().symbol@);
        if f != -1 {
            rest + spec_fp_mul(hs[f].quantity as int, qs.last().price as int)
        } else {
            rest
        }
    }
}

/// Total cost of the held positions.
pub open spec fn spec_portfolio_cost(hs: Seq<Holding>) -> int
    decreases hs.len(),
{
    if hs.len() == 0 {
        0
    } else {
        spec_portfolio_cost(hs.drop_last()) + spec_fp_mul(
            hs.last().quantity as int,
            hs.last().cost_basis as int,
        )
    }
}

/// Today's change of the held positions: quantity times each matched
/// quote's change.
pub open spec fn spec_portfolio_today(qs: Seq<Quote>, hs: Seq<Holding>) -> int
    decreases qs.len(),
{
    if qs.len() == 0 {
        0
    } else {
        let rest = spec_portfolio_today(qs.drop_last(), hs);
        let f = spec_find(hs, qs.last().symbol@);
        if f != -1 {
            rest + spec_fp_mul(hs[f].quantity as int, qs.last().change as int)
        } else {
            rest
        }
    }
}

impl AppState {
    /// Replace the triggered list with a fresh evaluation of every
    /// alert against the current quotes.
    pub fn check_alerts(&mut self)
        requires
            old(self).wf(),
        ensures
            final(self).wf(),
            final(self).triggered_alerts@ == spec_check_alerts(
                old(self).quotes@,
                old(self).alerts,
            ),
            *final(self) == (AppState {
                triggered_alerts: final(self).triggered_alerts,
                ..*old(self)
            }),
    {
        let trig = crate::alerts::check_alerts(&self.quotes, &self.alerts);
        self.triggered_alerts = trig;
    }

    /// Add a price alert for a symbol.
    pub fn add_alert(&mut self, symbol: &str, condition: AlertCondition, target: i64)
        requires
            old(self).wf(),
            0 <= target <= MAX_AMOUNT,
        ensures
            final(self).wf(),
            final(self).alerts.alerts_of(symbol@) == old(self).alerts.alerts_of(symbol@).push(
                (condition, target),
            ),
            forall|other: Seq<char>|
                other != symbol@ ==> #[trigger] final(self).alerts.alerts_of(other) == old(self).alerts.alerts_of(other),
            *final(self) == (AppState { alerts: final(self).alerts, ..*old(self) }),
    {
        self.alerts.add_alert(symbol, condition, target);
    }

    /// Remove a symbol's alert by position.
    pub fn remove_alert(&mut self, symbol: &str, index: usize)
        requires
            old(self).wf(),
        ensures
            final(self).wf(),
            index < old(self).alerts.alerts_of(symbol@).len() ==> final(self).alerts.alerts_of(
                symbol@,
            ) == old(self).alerts.alerts_of(symbol@).remove(index as int),
            index >= old(self).alerts.alerts_of(symbol@).len() ==> final(self).alerts.alerts_of(
                symbol@,
            ) == old(self).alerts.alerts_of(symbol@),
            forall|other: Seq<char>|
                other != symbol@ ==> #[trigger] final(self).alerts.alerts_of(other) == old(self).alerts.alerts_of(other),
            *final(self) == (AppState { alerts: final(self).alerts, ..*old(self) }),
    {
        self.alerts.remove_alert(symbol, index);
    }

    /// Begin interactive alert setup for a symbol.
    pub fn start_alert_setup(&mut self, symbol: String)
        requires
            old(self).wf(),
        ensures
            final(self).wf(),
            final(self).alert_setup == Some(
                (symbol, AlertSetupMode::SelectCondition(0usize)),
            ),
            *final(self) == (AppState { alert_setup: final(self).alert_setup, ..*old(self) }),
    {
        self.alert_setup = Some((symbol, AlertSetupMode::SelectCondition(0)));
    }

    /// Step to the next condition while choosing one.
    pub fn alert_next_condition(&mut self)
        requires
            old(self).wf(),
        ensures
            final(self).wf(),
            (match old(self).alert_setup {
                Option::Some((sym, AlertSetupMode::SelectCondition(i))) => final(self).alert_setup
                    == Some(
                    (
                        sym,
                        AlertSetupMode::SelectCondition(
                            (if i >= 2 {
                                0int
                            } else {
                                i + 1
                            }) as usize,
                        ),
                    ),
                ),
                _ => final(self).alert_setup == old(self).alert_setup,
            }),
            *final(self) == (AppState { alert_setup: final(self).alert_setup, ..*old(self) }),
    {
        let setup = self.alert_setup.take();
        match setup {
            Some((sym, AlertSetupMode::SelectCondition(i))) => {
                let next = if i >= 2 {
                    0
                } else {
                    i + 1
                };
                self.alert_setup = Some((sym, AlertSetupMode::SelectCondition(next)));
            },
            other => {
                self.alert_setup = other;
            },
        }
    }

    /// Step to the previous condition while choosing one.
    pub fn alert_prev_condition(&mut self)
        requires
            old(self).wf(),
        ensures
            final(self).wf(),
            (match old(self).alert_setup {
                Option::Some((sym, AlertSetupMode::SelectCondition(i))) => final(self).alert_setup
                    == Some(
                    (
                        sym,
                        AlertSetupMode::SelectCondition(
                            (if i == 0 {
                                2int
                            } else {
                                i - 1
                            }) as usize,
                        ),
                    ),
                ),
                _ => final(self).alert_setup == old(self).alert_setup,
            }),
            *final(self) == (AppState { alert_setup: final(self).alert_setup, ..*old(self) }),
    {
        let setup = self.alert_setup.take();
        match setup {
            Some((sym, AlertSetupMode::SelectCondition(i))) => {
                let prev = if i == 0 {
                    2
                } else {
                    i - 1
                };
                self.alert_setup = Some((sym, AlertSetupMode::SelectCondition(prev)));
            },
            other => {
                self.alert_setup = other;
            },
        }
    }

    /// The condition a selection index stands for.
    pub open spec fn spec_condition_at(i: usize) -> AlertCondition {
        if i == 0 {
            AlertCondition::Above
        } else if i == 1 {
            AlertCondition::Below
        } else {
            AlertCondition::Equal
        }
    }

    /// Move from choosing a condition to typing a price.
    pub fn alert_enter_price(&mut self)
        requires
            old(self).wf(),
        ensures
            final(self).wf(),
            (match old(self).alert_setup {
                Option::Some((sym, AlertSetupMode::SelectCondition(i))) => (match final(self).alert_setup {
                    Option::Some((sym2, AlertSetupMode::EnterPrice(cond, buf))) => sym2 == sym
                        && cond == Self::spec_condition_at(i) && buf@ == Seq::<char>::empty(),
                    _ => false,
                }),
                _ => final(self).alert_setup == old(self).alert_setup,
            }),
            *final(self) == (AppState { alert_setup: final(self).alert_setup, ..*old(self) }),
    {
        let setup = self.alert_setup.take();
        match setup {
            Some((sym, AlertSetupMode::SelectCondition(i))) => {
                let cond = if i == 0 {
                    AlertCondition::Above
                } else if i == 1 {
                    AlertCondition::Below
                } else {
                    AlertCondition::Equal
                };
                self.alert_setup = Some((sym, AlertSetupMode::EnterPrice(cond, String::new())));
            },
            other => {
                self.alert_setup = other;
            },
        }
    }

    /// Append to the typed price: digits always, a dot only once.
    pub fn alert_price_push(&mut self, c: char)
        requires
            old(self).wf(),
        ensures
            final(self).wf(),
            (match old(self).alert_setup {
                Option::Some((sym, AlertSetupMode::EnterPrice(cond, buf))) => (match final(self).alert_setup {
                    Option::Some((sym2, AlertSetupMode::EnterPrice(cond2, buf2))) => sym2 == sym
                        && cond2 == cond && buf2@ == (if ('0' <= c && c <= '9') || (c == '.'
                        && !buf@.contains('.')) {
                        buf@.push(c)
                    } else {
                        buf@
                    }),
                    _ => false,
                }),
                _ => final(self).alert_setup == old(self).alert_setup,
            }),
            *final(self) == (AppState { alert_setup: final(self).alert_setup, ..*old(self) }),
    {
        let setup = self.alert_setup.take();
        match setup {
            Some((sym, AlertSetupMode::EnterPrice(cond, buf))) => {
                let is_digit_c = '0' <= c && c <= '9';
                let mut has_dot = false;
                let n = buf.as_str().unicode_len();
                let mut i: usize = 0;
                while i < n
                    invariant
                        n == buf@.len(),
                        i <= n,
                        has_dot == exists|j: int| 0 <= j < i && buf@[j] == '.',
                    decreases n - i,
                {
                    if buf.as_str().get_char(i) == '.' {
                        has_dot = true;
                        proof {
                            assert(buf@[i as int] == '.');
                        }
                    }
                    i += 1;
                }
                proof {
                    assert(has_dot == buf@.contains('.'));
                }
                if is_digit_c || (c == '.' && !has_dot) {
                    let mut appended = buf;
                    crate::fmt::push_char(&mut appended, c);
                    self.alert_setup = Some((sym, AlertSetupMode::EnterPrice(cond, appended)));
                } else {
                    self.alert_setup = Some((sym, AlertSetupMode::EnterPrice(cond, buf)));
                }
            },
            other => {
                self.alert_setup = other;
            },
        }
    }

    /// Drop the last typed character of the price.
    #[verifier::rlimit(60)]
    pub fn alert_price_pop(&mut self)
        requires
            old(self).wf(),
        ensures
            final(self).wf(),
            (match old(self).alert_setup {
                Option::Some((sym, AlertSetupMode::EnterPrice(cond, buf))) => (match final(self).alert_setup {
                    Option::Some((sym2, AlertSetupMode::EnterPrice(cond2, buf2))) => sym2 == sym
                        && cond2 == cond && buf2@ == (if buf@.len() > 0 {
                        buf@.drop_last()
                    } else {
                        buf@
                    }),
                    _ => false,
                }),
                _ => final(self).alert_setup == old(self).alert_setup,
            }),
            *final(self) == (AppState { alert_setup: final(self).alert_setup, ..*old(self) }),
    {
        let setup = self.alert_setup.take();
        match setup {
            Some((sym, AlertSetupMode::EnterPrice(cond, buf))) => {
                let n = buf.as_str().unicode_len();
                if n > 0 {
                    let shorter = String::from_str(buf.as_str().substring_char(0, n - 1));
                    proof {
                        assert(shorter@ =~= buf@.drop_last());
                    }
                    self.alert_setup = Some((sym, AlertSetupMode::EnterPrice(cond, shorter)));
                } else {
                    self.alert_setup = Some((sym, AlertSetupMode::EnterPrice(cond, buf)));
                }
            },
            other => {
                self.alert_setup = other;
            },
        }
    }

    /// Confirm the setup: a price that parses adds the alert and ends
    /// the setup; anything else reports failure and leaves the setup
    /// standing.
    #[verifier::rlimit(60)]
    pub fn alert_confirm(&mut self) -> (r: bool)
        requires
            old(self).wf(),
        ensures
            final(self).wf(),
            (match old(self).alert_setup {
                Option::Some((sym, AlertSetupMode::EnterPrice(cond, buf))) => (match
                    crate::parse::spec_parse_price(buf@) {
                    Option::Some(v) => {
                        &&& r
                        &&& final(self).alert_setup is None
                        &&& final(self).alerts.alerts_of(sym@) == old(self).alerts.alerts_of(
                            sym@,
                        ).push((cond, v))
                        &&& forall|other: Seq<char>|
                            other != sym@ ==> #[trigger] final(self).alerts.alerts_of(other)
                                == old(self).alerts.alerts_of(other)
                    },
                    Option::None => !r && *final(self) == *old(self),
                }),
                _ => !r && *final(self) == *old(self),
            }),
    {
        let setup = self.alert_setup.take();
        match setup {
            Some((sym, AlertSetupMode::EnterPrice(cond, buf))) => {
                match crate::parse::parse_price(buf.as_str()) {
                    Some(v) => {
                        self.alerts.add_alert(sym.as_str(), cond, v);
                        self.alert_setup = None;
                        true
                    },
                    None => {
                        self.alert_setup = Some((sym, AlertSetupMode::EnterPrice(cond, buf)));
                        false
                    },
                }
            },
            other => {
                self.alert_setup = other;
                false
            },
        }
    }

    /// Abandon the interactive alert setup.
    pub fn alert_cancel(&mut self)
        requires
            old(self).wf(),
        ensures
            final(self).wf(),
            final(self).alert_setup is None,
            *final(self) == (AppState { alert_setup: final(self).alert_setup, ..*old(self) }),
    {
        self.alert_setup = None;
    }

    /// The cached quote for a symbol while it is fresh at `now`.
    pub fn get_cached_quote(&self, symbol: &str, now: u64) -> (r: Option<Quote>)
        requires
            self.wf(),
        ensures
            match self.cache.entry_of(symbol@) {
                Option::Some(e) => if crate::cache::spec_fresh(e.1, now) {
                    r == Some(e.0)
                } else {
                    r is None
                },
                Option::None => r is None,
            },
    {
        self.cache.get(symbol, now)
    }

    /// Store a quote in the cache under its symbol.
    pub fn cache_quote(&mut self, quote: Quote, now: u64)
        requires
            old(self).wf(),
        ensures
            final(self).wf(),
            final(self).cache.entry_of(quote.symbol@) == Some((quote, now)),
            forall|other: Seq<char>|
                other != quote.symbol@ ==> #[trigger] final(self).cache.entry_of(other) == old(self).cache.entry_of(other),
            *final(self) == (AppState { cache: final(self).cache, ..*old(self) }),
    {
        self.cache.put(quote, now);
    }

    /// Drop every cache entry that is stale at `now`.
    pub fn clean_cache(&mut self, now: u64)
        requires
            old(self).wf(),
        ensures
            final(self).wf(),
            forall|sym: Seq<char>| #[trigger]
                final(self).cache.entry_of(sym) == match old(self).cache.entry_of(sym) {
                    Option::Some(e) => if crate::cache::spec_fresh(e.1, now) {
                        Some(e)
                    } else {
                        None::<(Quote, u64)>
                    },
                    Option::None => None::<(Quote, u64)>,
                },
            *final(self) == (AppState { cache: final(self).cache, ..*old(self) }),
    {
        self.cache.purge_expired(now);
    }

    /// Record one observed price into a symbol's rolling history.
    pub fn update_price_history(&mut self, symbol: &str, price: i64)
        requires
            old(self).wf(),
            0 <= price <= MAX_AMOUNT,
        ensures
            final(self).wf(),
            final(self).history.series_of(symbol@) == spec_record(
                old(self).history.series_of(symbol@),
                price,
            ),
            forall|other: Seq<char>|
                other != symbol@ ==> #[trigger] final(self).history.series_of(other) == old(self).history.series_of(other),
            *final(self) == (AppState { history: final(self).history, ..*old(self) }),
    {
        self.history.record(symbol, price);
    }

    /// Wilder-smoothed RSI for a symbol's history.
    pub fn calculate_rsi(&self, symbol: &str) -> (r: Option<i64>)
        requires
            self.wf(),
        ensures
            match r {
                Option::None => self.history.series_of(symbol@).len() < RSI_PERIOD + 1,
                Option::Some(v) => self.history.series_of(symbol@).len() >= RSI_PERIOD + 1 && v
                    == spec_rsi(self.history.series_of(symbol@)) && 0 <= v <= FP_HUNDRED,
            },
    {
        self.history.rsi(symbol)
    }

    /// Simple moving average for a symbol's history.
    pub fn calculate_sma(&self, symbol: &str, period: usize) -> (r: Option<i64>)
        requires
            self.wf(),
            period >= 1,
        ensures
            match r {
                Option::None => self.history.series_of(symbol@).len() < period,
                Option::Some(v) => self.history.series_of(symbol@).len() >= period && v
                    == spec_sma(self.history.series_of(symbol@), period as int) && 0 <= v
                    <= MAX_AMOUNT,
            },
    {
        self.history.sma(symbol, period)
    }

    /// MACD triple for a symbol's history.
    pub fn calculate_macd(&self, symbol: &str) -> (r: Option<(i64, i64, i64)>)
        requires
            self.wf(),
        ensures
            match r {
                Option::None => self.history.series_of(symbol@).len() < 26,
                Option::Some(t) => {
                    &&& self.history.series_of(symbol@).len() >= 26
                    &&& t.0 == spec_macd_signal(self.history.series_of(symbol@))
                    &&& t.1 == spec_macd_line(self.history.series_of(symbol@))
                    &&& t.2 == t.1 - t.0
                },
            },
    {
        self.history.macd(symbol)
    }

    /// The sparkline drawn for a symbol's recent prices.
    pub fn get_sparkline(&self, symbol: &str) -> (r: String)
        requires
            self.wf(),
        ensures
            r@ == spec_glyphs(spec_spark_levels(self.history.series_of(symbol@))),
    {
        let levels = self.history.spark_levels(symbol);
        sparkline_string(&levels)
    }

    /// Total value of the portfolio at the current quotes, clamped to
    /// the machine range.
    pub fn total_portfolio_value(&self) -> (r: i64)
        requires
            self.wf(),
        ensures
            r == clamp_i64(spec_portfolio_value(self.quotes@, self.holdings@)),
    {
        let n = self.quotes.len();
        let mut acc: i128 = 0;
        let mut i: usize = 0;
        while i < n
            invariant
                self.wf(),
                n == self.quotes@.len(),
                i <= n,
                acc == spec_portfolio_value(self.quotes@.subrange(0, i as int), self.holdings@),
                -(i as int) * 1_000_000_000_000_000_000 <= acc <= (i as int)
                    * 1_000_000_000_000_000_000,
            decreases n - i,
        {
            proof {
                assert(self.quotes@.subrange(0, i + 1) =~= self.quotes@.subrange(
                    0,
                    i as int,
                ).push(self.quotes@[i as int]));
                assert(self.quotes@.subrange(0, i + 1).drop_last() =~= self.quotes@.subrange(
                    0,
                    i as int,
                ));
            }
            let q = &self.quotes[i];
            match find_index(&self.holdings, q.symbol.as_str()) {
                Some(h) => {
                    let v = self.holdings[h].current_value(q.price);
                    acc = acc + (v as i128);
                },
                None => {},
            }
            i += 1;
        }
        proof {
            assert(self.quotes@.subrange(0, n as int) =~= self.quotes@);
        }
        clamp_to_i64(acc)
    }

    /// Total cost of the portfolio, clamped to the machine range.
    pub fn total_portfolio_cost(&self) -> (r: i64)
        requires
            self.wf(),
        ensures
            r == clamp_i64(spec_portfolio_cost(self.holdings@)),
    {
        let n = self.holdings.len();
        let mut acc: i128 = 0;
        let mut i: usize = 0;
        while i < n
            invariant
                self.wf(),
                n == self.holdings@.len(),
                i <= n,
                acc == spec_portfolio_cost(self.holdings@.subrange(0, i as int)),
                -(i as int) * 1_000_000_000_000_000_000 <= acc <= (i as int)
                    * 1_000_000_000_000_000_000,
            decreases n - i,
        {
            proof {
                assert(self.holdings@.subrange(0, i + 1) =~= self.holdings@.subrange(
                    0,
                    i as int,
                ).push(self.holdings@[i as int]));
                assert(self.holdings@.subrange(0, i + 1).drop_last() =~= self.holdings@.subrange(
                    0,
                    i as int,
                ));
            }
            let c = self.holdings[i].total_cost();
            acc = acc + (c as i128);
            i += 1;
        }
        proof {
            assert(self.holdings@.subrange(0, n as int) =~= self.holdings@);
        }
        clamp_to_i64(acc)
    }

    /// Total profit or loss: value minus cost, each clamped, the
    /// difference clamped again.
    pub fn total_portfolio_pnl(&self) -> (r: i64)
        requires
            self.wf(),
        ensures
            r == clamp_i64(
                clamp_i64(spec_portfolio_value(self.quotes@, self.holdings@)) - clamp_i64(
                    spec_portfolio_cost(self.holdings@),
                ),
            ),
    {
        let v = self.total_portfolio_value();
        let c = self.total_portfolio_cost();
        clamp_to_i64((v as i128) - (c as i128))
    }

    /// Today's portfolio change at the current quotes, clamped.
    pub fn today_portfolio_change(&self) -> (r: i64)
        requires
            self.wf(),
        ensures
            r == clamp_i64(spec_portfolio_today(self.quotes@, self.holdings@)),
    {
        let n = self.quotes.len();
        let mut acc: i128 = 0;
        let mut i: usize = 0;
        while i < n
            invariant
                self.wf(),
                n == self.quotes@.len(),
                i <= n,
                acc == spec_portfolio_today(self.quotes@.subrange(0, i as int), self.holdings@),
                -(i as int) * 1_000_000_000_000_000_000 <= acc <= (i as int)
                    * 1_000_000_000_000_000_000,
            decreases n - i,
        {
            proof {
                assert(self.quotes@.subrange(0, i + 1) =~= self.quotes@.subrange(
                    0,
                    i as int,
                ).push(self.quotes@[i as int]));
                assert(self.quotes@.subrange(0, i + 1).drop_last() =~= self.quotes@.subrange(
                    0,
                    i as int,
                ));
                assert(-MAX_AMOUNT <= self.quotes@[i as int].change <= MAX_AMOUNT);
            }
            let q = &self.quotes[i];
            match find_index(&self.holdings, q.symbol.as_str()) {
                Some(h) => {
                    let v = crate::quote::fp_mul(self.holdings[h].quantity, q.change);
                    acc = acc + (v as i128);
                },
                None => {},
            }
            i += 1;
        }
        proof {
            assert(self.quotes@.subrange(0, n as int) =~= self.quotes@);
        }
        clamp_to_i64(acc)
    }
}

/// Clamp a wide intermediate into the machine range.
fn clamp_to_i64(x: i128) -> (r: i64)
    ensures
        r == clamp_i64(x as int),
{
    if x > (i64::MAX as i128) {
        i64::MAX
    } else if x < (i64::MIN as i128) {
        i64::MIN
    } else {
        x as i64
    }
}


/// ASCII lower-casing of one character; anything else is unchanged.
pub open spec fn spec_lower_char(c: char) -> char {
    if c == 'A' {
        'a'
    } else if c == 'B' {
        'b'
    } else if c == 'C' {
        'c'
    } else if c == 'D' {
        'd'
    } else if c == 'E' {
        'e'
    } else if c == 'F' {
        'f'
    } else if c == 'G' {
        'g'
    } else if c == 'H' {
        'h'
    } else if c == 'I' {
        'i'
    } else if c == 'J' {
        'j'
    } else if c == 'K' {
        'k'
    } else if c == 'L' {
        'l'
    } else if c == 'M' {
        'm'
    } else if c == 'N' {
        'n'
    } else if c == 'O' {
        'o'
    } else if c == 'P' {
        'p'
    } else if c == 'Q' {
        'q'
    } else if c == 'R' {
        'r'
    } else if c == 'S' {
        's'
    } else if c == 'T' {
        't'
    } else if c == 'U' {
        'u'
    } else if c == 'V' {
        'v'
    } else if c == 'W' {
        'w'
    } else if c == 'X' {
        'x'
    } else if c == 'Y' {
        'y'
    } else if c == 'Z' {
        'z'
    } else {
        c
    }
}

/// ASCII lower-casing of a character sequence.
pub open spec fn spec_lower(s: Seq<char>) -> Seq<char> {
    s.map_values(|c: char| spec_lower_char(c))
}

/// Lower-case one character.
fn lower_char(c: char) -> (r: char)
    ensures
        r == spec_lower_char(c),
{
    if c == 'A' {
        'a'
    } else if c == 'B' {
        'b'
    } else if c == 'C' {
        'c'
    } else if c == 'D' {
        'd'
    } else if c == 'E' {
        'e'
    } else if c == 'F' {
        'f'
    } else if c == 'G' {
        'g'
    } else if c == 'H' {
        'h'
    } else if c == 'I' {
        'i'
    } else if c == 'J' {
        'j'
    } else if c == 'K' {
        'k'
    } else if c == 'L' {
        'l'
    } else if c == 'M' {
        'm'
    } else if c == 'N' {
        'n'
    } else if c == 'O' {
        'o'
    } else if c == 'P' {
        'p'
    } else if c == 'Q' {
        'q'
    } else if c == 'R' {
        'r'
    } else if c == 'S' {
        's'
    } else if c == 'T' {
        't'
    } else if c == 'U' {
        'u'
    } else if c == 'V' {
        'v'
    } else if c == 'W' {
        'w'
    } else if c == 'X' {
        'x'
    } else if c == 'Y' {
        'y'
    } else if c == 'Z' {
        'z'
    } else {
        c
    }
}

/// Lower-case a string.
fn lower_string(s: &str) -> (r: String)
    ensures
        r@ == spec_lower(s@),
{
    let n = s.unicode_len();
    let mut out = String::new();
    let mut i: usize = 0;
    while i < n
        invariant
            n == s@.len(),
            i <= n,
            out@ == spec_lower(s@.subrange(0, i as int)),
        decreases n - i,
    {
        let c = lower_char(s.get_char(i));
        crate::fmt::push_char(&mut out, c);
        proof {
            assert(out@ =~= spec_lower(s@.subrange(0, i + 1)));
        }
        i += 1;
    }
    proof {
        assert(s@.subrange(0, n as int) =~= s@);
    }
    out
}

/// Whether the needle occurs anywhere in the haystack.
pub open spec fn spec_contains_sub(hay: Seq<char>, needle: Seq<char>) -> bool {
    exists|k: int|
        0 <= k <= hay.len() - needle.len() && #[trigger] hay.subrange(k, k + needle.len())
            =~= needle
}

/// Search for the needle in the haystack.
fn contains_sub(hay: &str, needle: &str) -> (r: bool)
    ensures
        r == spec_contains_sub(hay@, needle@),
{
    let nh = hay.unicode_len();
    let nn = needle.unicode_len();
    if nn > nh {
        return false;
    }
    let mut k: usize = 0;
    while k <= nh - nn
        invariant
            nh == hay@.len(),
            nn == needle@.len(),
            nn <= nh,
            k <= nh - nn + 1,
            forall|k2: int|
                0 <= k2 < k ==> !(#[trigger] hay@.subrange(k2, k2 + nn) =~= needle@),
        decreases nh - nn + 1 - k,
    {
        let mut j: usize = 0;
        let mut matched = true;
        while j < nn
            invariant
                nh == hay@.len(),
                nn == needle@.len(),
                nn <= nh,
                k <= nh - nn,
                j <= nn,
                matched == (forall|j2: int|
                    0 <= j2 < j ==> hay@[k + j2] == needle@[j2]),
            decreases nn - j,
        {
            if hay.get_char(k + j) != needle.get_char(j) {
                proof {
                    assert(!(hay@[k + j] == needle@[j as int]));
                }
                matched = false;
                j = nn;
            } else {
                j += 1;
            }
        }
        if matched {
            proof {
                assert(hay@.subrange(k as int, k + nn) =~= needle@);
            }
            return true;
        }
        proof {
            assert(!(hay@.subrange(k as int, k + nn) =~= needle@)) by {
                if hay@.subrange(k as int, k + nn) =~= needle@ {
                    assert(forall|j2: int|
                        0 <= j2 < nn ==> hay@.subrange(k as int, k + nn)[j2] == #[trigger] needle@[j2]);
                    assert(forall|j2: int| 0 <= j2 < nn ==> hay@[k + j2] == #[trigger] needle@[j2]);
                }
            }
        }
        k += 1;
    }
    proof {
        assert forall|k2: int|
            0 <= k2 <= hay@.len() - needle@.len() implies !(#[trigger] hay@.subrange(k2, k2 + nn)
            =~= needle@) by {}
    }
    false
}

/// Whether a quote matches a lower-case query on its symbol or name.
pub open spec fn spec_quote_matches(q: Quote, query: Seq<char>) -> bool {
    spec_contains_sub(spec_lower(q.symbol@), query) || spec_contains_sub(
        spec_lower(q.name@),
        query,
    )
}

/// The quotes of a run that match a query, order kept.
pub open spec fn spec_filter_quotes(qs: Seq<Quote>, query: Seq<char>) -> Seq<Quote>
    decreases qs.len(),
{
    if qs.len() == 0 {
        Seq::empty()
    } else {
        let rest = spec_filter_quotes(qs.drop_last(), query);
        if spec_quote_matches(qs.last(), query) {
            rest.push(qs.last())
        } else {
            rest
        }
    }
}

impl AppState {
    /// Rebuild the filtered table from the active query; without a
    /// query nothing changes.
    pub fn update_filtered_quotes(&mut self)
        requires
            old(self).wf(),
        ensures
            final(self).wf(),
            (match old(self).search_query {
                Option::Some(q) => final(self).filtered_quotes@ == spec_filter_quotes(
                    old(self).quotes@,
                    q@,
                ),
                Option::None => final(self).filtered_quotes == old(self).filtered_quotes,
            }),
            *final(self) == (AppState {
                filtered_quotes: final(self).filtered_quotes,
                ..*old(self)
            }),
    {
        let query = match &self.search_query {
            Some(q) => q.clone(),
            None => {
                return ;
            },
        };
        let n = self.quotes.len();
        let mut out: Vec<Quote> = Vec::new();
        let mut i: usize = 0;
        while i < n
            invariant
                n == self.quotes@.len(),
                i <= n,
                query@ == (match old(self).search_query {
                    Option::Some(q) => q@,
                    Option::None => query@,
                }),
                out@ == spec_filter_quotes(self.quotes@.subrange(0, i as int), query@),
                *self == *old(self),
            decreases n - i,
        {
            proof {
                assert(self.quotes@.subrange(0, i + 1) =~= self.quotes@.subrange(0, i as int).push(
                    self.quotes@[i as int],
                ));
                assert(self.quotes@.subrange(0, i + 1).drop_last() =~= self.quotes@.subrange(
                    0,
                    i as int,
                ));
            }
            let q = &self.quotes[i];
            let sym_l = lower_string(q.symbol.as_str());
            let name_l = lower_string(q.name.as_str());
            if contains_sub(sym_l.as_str(), query.as_str()) || contains_sub(
                name_l.as_str(),
                query.as_str(),
            ) {
                out.push(q.clone());
            }
            i += 1;
        }
        proof {
            assert(self.quotes@.subrange(0, n as int) =~= self.quotes@);
        }
        self.filtered_quotes = out;
    }

    /// Begin a search: the query is lower-cased, the filter rebuilt,
    /// the selection reset.
    pub fn start_search(&mut self, query: String)
        requires
            old(self).wf(),
        ensures
            final(self).wf(),
            (match final(self).search_query {
                Option::Some(q) => q@ == spec_lower(query@),
                Option::None => false,
            }),
            final(self).filtered_quotes@ == spec_filter_quotes(
                old(self).quotes@,
                spec_lower(query@),
            ),
            final(self).selected == 0,
            final(self).quotes == old(self).quotes,
            final(self).search_mode == old(self).search_mode,
            final(self).search_input == old(self).search_input,
    {
        let lowered = lower_string(query.as_str());
        self.search_query = Some(lowered);
        self.update_filtered_quotes();
        self.selected = 0;
    }

    /// Leave search: no query, no filtered rows, selection reset.
    pub fn clear_search(&mut self)
        requires
            old(self).wf(),
        ensures
            final(self).wf(),
            final(self).search_query is None,
            final(self).filtered_quotes@.len() == 0,
            final(self).selected == 0,
            final(self).quotes == old(self).quotes,
            final(self).search_mode == old(self).search_mode,
            final(self).search_input == old(self).search_input,
    {
        self.search_query = None;
        self.filtered_quotes = Vec::new();
        self.selected = 0;
    }

    /// Start taking search input.
    pub fn enter_search_mode(&mut self)
        requires
            old(self).wf(),
        ensures
            final(self).wf(),
            final(self).search_mode,
            final(self).search_input@ == Seq::<char>::empty(),
            final(self).quotes == old(self).quotes,
    {
        self.search_mode = true;
        self.search_input = String::new();
    }

    /// Stop taking input: a non-empty buffer becomes the search, an
    /// empty one clears it.
    pub fn exit_search_mode(&mut self)
        requires
            old(self).wf(),
        ensures
            final(self).wf(),
            !final(self).search_mode,
            old(self).search_input@.len() > 0 ==> (match final(self).search_query {
                Option::Some(q) => q@ == spec_lower(old(self).search_input@),
                Option::None => false,
            }),
            old(self).search_input@.len() == 0 ==> final(self).search_query is None,
    {
        self.search_mode = false;
        if self.search_input.as_str().unicode_len() > 0 {
            let q = self.search_input.clone();
            self.start_search(q);
        } else {
            self.clear_search();
        }
    }

    /// Take one character of search input and filter at once.
    pub fn search_input_push(&mut self, c: char)
        requires
            old(self).wf(),
        ensures
            final(self).wf(),
            final(self).search_input@ == old(self).search_input@.push(c),
            (match final(self).search_query {
                Option::Some(q) => q@ == spec_lower(old(self).search_input@.push(c)),
                Option::None => false,
            }),
    {
        crate::fmt::push_char(&mut self.search_input, c);
        let q = self.search_input.clone();
        self.start_search(q);
    }

    /// Drop the last character of search input; an emptied buffer
    /// clears the search.
    pub fn search_input_pop(&mut self)
        requires
            old(self).wf(),
        ensures
            final(self).wf(),
            final(self).search_input@ == (if old(self).search_input@.len() > 0 {
                old(self).search_input@.drop_last()
            } else {
                old(self).search_input@
            }),
            final(self).search_input@.len() == 0 ==> final(self).search_query is None,
            final(self).search_input@.len() > 0 ==> (match final(self).search_query {
                Option::Some(q) => q@ == spec_lower(final(self).search_input@),
                Option::None => false,
            }),
    {
        let n = self.search_input.as_str().unicode_len();
        if n > 0 {
            let shorter = String::from_str(self.search_input.as_str().substring_char(0, n - 1));
            proof {
                assert(shorter@ =~= self.search_input@.drop_last());
            }
            self.search_input = shorter;
        }
        if self.search_input.as_str().unicode_len() == 0 {
            self.clear_search();
        } else {
            let q = self.search_input.clone();
            self.start_search(q);
        }
    }

    /// The rows on display: the filtered table during a search, else
    /// the full one.
    pub fn display_quotes(&self) -> (r: &Vec<Quote>)
        ensures
            self.search_query is Some ==> r == &self.filtered_quotes,
            self.search_query is None ==> r == &self.quotes,
    {
        if self.search_query.is_some() {
            &self.filtered_quotes
        } else {
            &self.quotes
        }
    }

    /// Watch one more symbol, expanded; duplicates are not added.
    pub fn add_symbol(&mut self, symbol: &str)
        requires
            old(self).wf(),
        ensures
            final(self).wf(),
            crate::fetch::views_of(old(self).symbols@).contains(
                crate::symbol::spec_expand(symbol@),
            ) ==> final(self).symbols == old(self).symbols,
            !crate::fetch::views_of(old(self).symbols@).contains(
                crate::symbol::spec_expand(symbol@),
            ) ==> final(self).symbols@.len() == old(self).symbols@.len() + 1 && final(self).symbols@.last()@ == crate::symbol::spec_expand(symbol@) && final(self).symbols@.subrange(0, old(self).symbols@.len() as int) == old(self).symbols@,
            *final(self) == (AppState { symbols: final(self).symbols, ..*old(self) }),
    {
        let expanded = crate::symbol::expand_symbol(symbol);
        if !crate::fetch::contains_view(&self.symbols, expanded.as_str()) {
            let ghost s0 = self.symbols@;
            self.symbols.push(expanded);
            proof {
                assert(self.symbols@.subrange(0, s0.len() as int) =~= s0);
            }
        }
    }
}


/// The strings of a run whose view is not the given symbol, in order.
pub open spec fn spec_remove_strings(s: Seq<String>, sym: Seq<char>) -> Seq<String>
    decreases s.len(),
{
    if s.len() == 0 {
        Seq::empty()
    } else {
        let rest = spec_remove_strings(s.drop_last(), sym);
        if s.last()@ == sym {
            rest
        } else {
            rest.push(s.last())
        }
    }
}

/// The quotes of a run not keyed by the given symbol, in order.
pub open spec fn spec_remove_quotes(qs: Seq<Quote>, sym: Seq<char>) -> Seq<Quote>
    decreases qs.len(),
{
    if qs.len() == 0 {
        Seq::empty()
    } else {
        let rest = spec_remove_quotes(qs.drop_last(), sym);
        if qs.last().symbol@ == sym {
            rest
        } else {
            rest.push(qs.last())
        }
    }
}

impl AppState {
    /// Stop watching a symbol: its expansion leaves the watchlist and
    /// the table, and the selection is pulled back inside.
    pub fn remove_symbol(&mut self, symbol: &str)
        requires
            old(self).wf(),
        ensures
            final(self).wf(),
            final(self).symbols@ == spec_remove_strings(
                old(self).symbols@,
                crate::symbol::spec_expand(symbol@),
            ),
            final(self).quotes@ == spec_remove_quotes(
                old(self).quotes@,
                crate::symbol::spec_expand(symbol@),
            ),
    {
        let expanded = crate::symbol::expand_symbol(symbol);
        let ghost sym = expanded@;
        let n = self.symbols.len();
        let mut kept: Vec<String> = Vec::new();
        let mut i: usize = 0;
        while i < n
            invariant
                n == self.symbols@.len(),
                i <= n,
                sym == expanded@,
                kept@ == spec_remove_strings(self.symbols@.subrange(0, i as int), sym),
            decreases n - i,
        {
            proof {
                assert(self.symbols@.subrange(0, i + 1) =~= self.symbols@.subrange(
                    0,
                    i as int,
                ).push(self.symbols@[i as int]));
                assert(self.symbols@.subrange(0, i + 1).drop_last() =~= self.symbols@.subrange(
                    0,
                    i as int,
                ));
            }
            if !str_eq(self.symbols[i].as_str(), expanded.as_str()) {
                kept.push(self.symbols[i].clone());
            }
            i += 1;
        }
        proof {
            assert(self.symbols@.subrange(0, n as int) =~= self.symbols@);
        }
        self.symbols = kept;
        let m = self.quotes.len();
        let mut kept_q: Vec<Quote> = Vec::new();
        let mut k: usize = 0;
        while k < m
            invariant
                m == self.quotes@.len(),
                k <= m,
                sym == expanded@,
                forall|j: int| 0 <= j < m ==> (#[trigger] self.quotes@[j]).wf(),
                forall|j: int| 0 <= j < kept_q@.len() ==> (#[trigger] kept_q@[j]).wf(),
                kept_q@ == spec_remove_quotes(self.quotes@.subrange(0, k as int), sym),
            decreases m - k,
        {
            proof {
                assert(self.quotes@.subrange(0, k + 1) =~= self.quotes@.subrange(0, k as int).push(
                    self.quotes@[k as int],
                ));
                assert(self.quotes@.subrange(0, k + 1).drop_last() =~= self.quotes@.subrange(
                    0,
                    k as int,
                ));
            }
            if !str_eq(self.quotes[k].symbol.as_str(), expanded.as_str()) {
                kept_q.push(self.quotes[k].clone());
            }
            k += 1;
        }
        proof {
            assert(self.quotes@.subrange(0, m as int) =~= self.quotes@);
        }
        self.quotes = kept_q;
        if self.selected >= self.quotes.len() {
            self.selected = 0;
        }
    }

    /// How long ago the last refresh succeeded, as text: seconds below
    /// a minute, whole minutes above, `never` before the first.
    pub fn time_since_refresh(&self, now_ms: u64) -> (r: String)
        ensures
            (match self.scheduler.last_refresh {
                Option::Some(t) => {
                    let secs = if now_ms >= t {
                        (now_ms - t) / 1000
                    } else {
                        0int
                    };
                    if secs < 60 {
                        r@ == spec_digits(secs) + "s ago"@
                    } else {
                        r@ == spec_digits(secs / 60) + "m ago"@
                    }
                },
                Option::None => r@ == "never"@,
            }),
    {
        match self.scheduler.last_refresh {
            Some(t) => {
                let secs: u64 = if now_ms >= t {
                    (now_ms - t) / 1000
                } else {
                    0
                };
                if secs < 60 {
                    u64_to_string(secs).concat("s ago")
                } else {
                    u64_to_string(secs / 60).concat("m ago")
                }
            },
            None => String::from_str("never"),
        }
    }

    /// The market-session label of the displayed data: the first
    /// quote's session, or `Unknown` with no data.
    pub fn get_market_state_display(&self) -> (r: String)
        ensures
            self.quotes@.len() == 0 ==> r@ == "Unknown"@,
            self.quotes@.len() > 0 ==> (match self.quotes@[0].market_state {
                crate::quote::MarketState::Pre => r@ == "Pre-Market"@,
                crate::quote::MarketState::Regular => r@ == "Market Open"@,
                crate::quote::MarketState::Post => r@ == "After Hours"@,
                crate::quote::MarketState::Closed => r@ == "Market Closed"@,
            }),
    {
        if self.quotes.len() == 0 {
            return String::from_str("Unknown");
        }
        match self.quotes[0].market_state {
            crate::quote::MarketState::Pre => String::from_str("Pre-Market"),
            crate::quote::MarketState::Regular => String::from_str("Market Open"),
            crate::quote::MarketState::Post => String::from_str("After Hours"),
            crate::quote::MarketState::Closed => String::from_str("Market Closed"),
        }
    }
}


/// The name a condition is persisted under.
pub open spec fn spec_condition_name(c: AlertCondition) -> Seq<char> {
    match c {
        AlertCondition::Above => "above"@,
        AlertCondition::Below => "below"@,
        AlertCondition::Equal => "equal"@,
    }
}

/// The condition a persisted name means, case-insensitively; `None`
/// for an unknown name.
pub open spec fn spec_parse_condition(s: Seq<char>) -> Option<AlertCondition> {
    if spec_lower(s) == "above"@ {
        Some(AlertCondition::Above)
    } else if spec_lower(s) == "below"@ {
        Some(AlertCondition::Below)
    } else if spec_lower(s) == "equal"@ {
        Some(AlertCondition::Equal)
    } else {
        None
    }
}

/// The alerts a persisted list yields: unknown conditions and
/// out-of-range targets are skipped.
pub open spec fn spec_converted(cfgs: Seq<crate::config::AlertConfig>) -> Seq<
    (AlertCondition, i64),
>
    decreases cfgs.len(),
{
    if cfgs.len() == 0 {
        Seq::empty()
    } else {
        let prev = spec_converted(cfgs.drop_last());
        let c = cfgs.last();
        match spec_parse_condition(c.condition@) {
            Some(cond) => if 0 <= c.price <= MAX_AMOUNT {
                prev.push((cond, c.price))
            } else {
                prev
            },
            None => prev,
        }
    }
}

/// A symbol's alert list after the persisted entries are loaded in
/// order: the last entry expanding to the symbol with any usable
/// alerts wins.
pub open spec fn spec_loaded(
    orig: Seq<(AlertCondition, i64)>,
    entries: Seq<crate::config::SymbolAlerts>,
    sym: Seq<char>,
) -> Seq<(AlertCondition, i64)>
    decreases entries.len(),
{
    if entries.len() == 0 {
        orig
    } else {
        let prev = spec_loaded(orig, entries.drop_last(), sym);
        let e = entries.last();
        if crate::symbol::spec_expand(e.symbol@) == sym && spec_converted(e.alerts@).len() > 0 {
            spec_converted(e.alerts@)
        } else {
            prev
        }
    }
}

/// Parse a persisted condition name.
fn parse_condition(s: &str) -> (r: Option<AlertCondition>)
    ensures
        r == spec_parse_condition(s@),
{
    let lowered = lower_string(s);
    if str_eq(lowered.as_str(), "above") {
        Some(AlertCondition::Above)
    } else if str_eq(lowered.as_str(), "below") {
        Some(AlertCondition::Below)
    } else if str_eq(lowered.as_str(), "equal") {
        Some(AlertCondition::Equal)
    } else {
        None
    }
}

/// Render a condition's persisted name.
fn condition_name(c: AlertCondition) -> (r: String)
    ensures
        r@ == spec_condition_name(c),
{
    match c {
        AlertCondition::Above => String::from_str("above"),
        AlertCondition::Below => String::from_str("below"),
        AlertCondition::Equal => String::from_str("equal"),
    }
}

impl AppState {
    /// Load persisted alerts: each entry's symbol is expanded and its
    /// usable alerts replace that symbol's list.
    pub fn load_alerts_from_config(&mut self, entries: &Vec<crate::config::SymbolAlerts>)
        requires
            old(self).wf(),
        ensures
            final(self).wf(),
            forall|sym: Seq<char>| #[trigger]
                final(self).alerts.alerts_of(sym) == spec_loaded(
                    old(self).alerts.alerts_of(sym),
                    entries@,
                    sym,
                ),
            *final(self) == (AppState { alerts: final(self).alerts, ..*old(self) }),
    {
        let n = entries.len();
        let mut i: usize = 0;
        while i < n
            invariant
                old(self).wf(),
                n == entries@.len(),
                i <= n,
                self.alerts.wf(),
                forall|sym: Seq<char>| #[trigger]
                    self.alerts.alerts_of(sym) == spec_loaded(
                        old(self).alerts.alerts_of(sym),
                        entries@.subrange(0, i as int),
                        sym,
                    ),
                *self == (AppState { alerts: self.alerts, ..*old(self) }),
            decreases n - i,
        {
            let ghost prefix = entries@.subrange(0, i as int);
            let ghost prefix1 = entries@.subrange(0, i as int + 1);
            proof {
                assert(prefix1 =~= prefix.push(entries@[i as int]));
                assert(prefix1.drop_last() =~= prefix);
            }
            let ghost b0 = self.alerts;
            let e = &entries[i];
            let expanded = crate::symbol::expand_symbol(e.symbol.as_str());
            let m = e.alerts.len();
            let mut converted: Vec<(AlertCondition, i64)> = Vec::new();
            let mut k: usize = 0;
            while k < m
                invariant
                    m == e.alerts@.len(),
                    k <= m,
                    converted@ == spec_converted(e.alerts@.subrange(0, k as int)),
                    forall|k2: int|
                        0 <= k2 < converted@.len() ==> 0 <= (#[trigger] converted@[k2]).1
                            <= MAX_AMOUNT,
                decreases m - k,
            {
                proof {
                    assert(e.alerts@.subrange(0, k + 1) =~= e.alerts@.subrange(0, k as int).push(
                        e.alerts@[k as int],
                    ));
                    assert(e.alerts@.subrange(0, k + 1).drop_last() =~= e.alerts@.subrange(
                        0,
                        k as int,
                    ));
                }
                let cfg = &e.alerts[k];
                match parse_condition(cfg.condition.as_str()) {
                    Some(cond) => {
                        if 0 <= cfg.price && cfg.price <= MAX_AMOUNT {
                            converted.push((cond, cfg.price));
                        }
                    },
                    None => {},
                }
                k += 1;
            }
            proof {
                assert(e.alerts@.subrange(0, m as int) =~= e.alerts@);
            }
            if converted.len() > 0 {
                self.alerts.set_alerts(expanded.as_str(), converted);
            }
            proof {
                assert forall|sym: Seq<char>| #[trigger]
                    self.alerts.alerts_of(sym) == spec_loaded(
                        old(self).alerts.alerts_of(sym),
                        prefix1,
                        sym,
                    ) by {
                    if sym != crate::symbol::spec_expand(entries@[i as int].symbol@) {
                        assert(self.alerts.alerts_of(sym) == b0.alerts_of(sym));
                    }
                }
            }
            i += 1;
        }
        proof {
            assert(entries@.subrange(0, n as int) =~= entries@);
        }
    }

    /// Persist the configured alerts: one entry per symbol carrying
    /// alerts, each alert with its condition's name and target.
    pub fn save_alerts_to_config(&self) -> (r: Vec<crate::config::SymbolAlerts>)
        requires
            self.wf(),
        ensures
            forall|i: int, j: int|
                0 <= i < j < r@.len() ==> (#[trigger] r@[i]).symbol@ != (
                #[trigger] r@[j]).symbol@,
            forall|i: int|
                0 <= i < r@.len() ==> {
                    let alerts = self.alerts.alerts_of((#[trigger] r@[i]).symbol@);
                    &&& r@[i].alerts@.len() == alerts.len()
                    &&& alerts.len() > 0
                    &&& forall|k: int|
                        0 <= k < alerts.len() ==> (#[trigger] r@[i].alerts@[k]).condition@
                            == spec_condition_name(alerts[k].0) && r@[i].alerts@[k].price
                            == alerts[k].1
                },
            forall|sym: Seq<char>|
                (#[trigger] self.alerts.alerts_of(sym)).len() > 0 ==> exists|i: int|
                    0 <= i < r@.len() && r@[i].symbol@ == sym,
    {
        let syms = self.alerts.symbols_with_alerts();
        let n = syms.len();
        let mut out: Vec<crate::config::SymbolAlerts> = Vec::new();
        let mut i: usize = 0;
        while i < n
            invariant
                self.wf(),
                n == syms@.len(),
                i <= n,
                out@.len() == i,
                forall|a: int, b: int|
                    0 <= a < b < syms@.len() ==> (#[trigger] syms@[a])@ != (#[trigger] syms@[b])@,
                forall|a: int|
                    0 <= a < syms@.len() ==> (#[trigger] self.alerts.alerts_of(syms@[a]@)).len()
                        > 0,
                forall|a: int| 0 <= a < i ==> (#[trigger] out@[a]).symbol@ == syms@[a]@,
                forall|a: int|
                    0 <= a < i ==> {
                        let alerts = self.alerts.alerts_of((#[trigger] out@[a]).symbol@);
                        &&& out@[a].alerts@.len() == alerts.len()
                        &&& forall|k: int|
                            0 <= k < alerts.len() ==> (#[trigger] out@[a].alerts@[k]).condition@
                                == spec_condition_name(alerts[k].0) && out@[a].alerts@[k].price
                                == alerts[k].1
                    },
            decreases n - i,
        {
            let sym = &syms[i];
            let list = self.alerts.alerts_for(sym.as_str());
            let m = list.len();
            let mut cfgs: Vec<crate::config::AlertConfig> = Vec::new();
            let mut k: usize = 0;
            while k < m
                invariant
                    m == list@.len(),
                    k <= m,
                    cfgs@.len() == k,
                    forall|k2: int|
                        0 <= k2 < k ==> (#[trigger] cfgs@[k2]).condition@ == spec_condition_name(
                            list@[k2].0,
                        ) && cfgs@[k2].price == list@[k2].1,
                decreases m - k,
            {
                let (cond, target) = list[k];
                cfgs.push(
                    crate::config::AlertConfig { condition: condition_name(cond), price: target },
                );
                k += 1;
            }
            out.push(crate::config::SymbolAlerts { symbol: sym.clone(), alerts: cfgs });
            i += 1;
        }
        proof {
            assert forall|sym: Seq<char>|
                (#[trigger] self.alerts.alerts_of(sym)).len() > 0 implies exists|i2: int|
                0 <= i2 < out@.len() && out@[i2].symbol@ == sym by {
                let a = choose|a: int| 0 <= a < syms@.len() && (#[trigger] syms@[a])@ == sym;
                assert(out@[a].symbol@ == sym);
            }
        }
        out
    }
}

} // verus!
