//! The configuration the engine consumes, as plain in-memory values.
//!
//! Loading and saving the file is the host's work; the engine only
//! combines the parsed values.

use vstd::prelude::*;
use crate::fetch::views_of;
use crate::price::in_range;
use crate::quote::Holding;

verus! {

/// General settings.
#[derive(Debug, Clone)]
pub struct GeneralConfig {
    /// Refresh interval in milliseconds.
    pub refresh_interval_ms: u64,
    /// Request timeout in seconds.
    pub timeout: u64,
    /// Display currency code.
    pub currency: String,
}

/// The default refresh interval: five seconds.
pub fn default_refresh_interval_ms() -> (r: u64)
    ensures
        r == 5_000,
{
    5_000
}

/// The default request timeout: ten seconds.
pub fn default_timeout() -> (r: u64)
    ensures
        r == 10,
{
    10
}

/// The default display currency.
pub fn default_currency() -> (r: String)
    ensures
        r@ == "USD"@,
{
    String::from_str("USD")
}

impl Default for GeneralConfig {
    /// Five-second refreshes, ten-second timeout, dollars.
    fn default() -> (r: Self)
        ensures
            r.refresh_interval_ms == 5_000,
            r.timeout == 10,
            r.currency@ == "USD"@,
    {
        GeneralConfig {
            refresh_interval_ms: default_refresh_interval_ms(),
            timeout: default_timeout(),
            currency: default_currency(),
        }
    }
}

/// The watchlist.
#[derive(Debug, Clone, Default)]
pub struct WatchlistConfig {
    /// Symbols to watch.
    pub symbols: Vec<String>,
}

/// One configured position.
#[derive(Debug, Clone)]
pub struct HoldingConfig {
    /// Ticker symbol.
    pub symbol: String,
    /// Units held, fixed point.
    pub quantity: i64,
    /// Cost per unit, fixed point.
    pub cost_basis: i64,
}

/// Display settings.
#[derive(Debug, Clone)]
pub struct DisplayConfig {
    /// Show the summary header.
    pub show_header: bool,
    /// Show fundamentals.
    pub show_fundamentals: bool,
    /// Show the holdings view.
    pub show_holdings: bool,
    /// Show separators between groups.
    pub show_separators: bool,
    /// Name of the default sort field.
    pub sort_by: String,
    /// Sort descending by default.
    pub sort_descending: bool,
}

/// The default for settings that start switched on.
pub fn default_true() -> (r: bool)
    ensures
        r,
{
    true
}

impl Default for DisplayConfig {
    /// Header and separators on, extra views off, sorted by percent
    /// change descending.
    fn default() -> (r: Self)
        ensures
            r.show_header,
            !r.show_fundamentals,
            !r.show_holdings,
            r.show_separators,
            r.sort_by@ == "change_percent"@,
            r.sort_descending,
    {
        DisplayConfig {
            show_header: default_true(),
            show_fundamentals: false,
            show_holdings: false,
            show_separators: default_true(),
            sort_by: String::from_str("change_percent"),
            sort_descending: default_true(),
        }
    }
}

/// Colors as hex codes.
#[derive(Debug, Clone)]
pub struct ColorConfig {
    /// Color of gains.
    pub gain: String,
    /// Color of losses.
    pub loss: String,
    /// Color of unchanged values.
    pub neutral: String,
    /// Header background color.
    pub header: String,
    /// Border color.
    pub border: String,
}

/// The default gain color.
pub fn default_gain_color() -> (r: String)
    ensures
        r@ == "#00ff00"@,
{
    String::from_str("#00ff00")
}

/// The default loss color.
pub fn default_loss_color() -> (r: String)
    ensures
        r@ == "#ff0000"@,
{
    String::from_str("#ff0000")
}

/// The default neutral color.
pub fn default_neutral_color() -> (r: String)
    ensures
        r@ == "#ffffff"@,
{
    String::from_str("#ffffff")
}

/// The default header color.
pub fn default_header_color() -> (r: String)
    ensures
        r@ == "#1e90ff"@,
{
    String::from_str("#1e90ff")
}

/// The default border color.
pub fn default_border_color() -> (r: String)
    ensures
        r@ == "#444444"@,
{
    String::from_str("#444444")
}

impl Default for ColorConfig {
    /// Green gains on red losses, white neutral, blue header, grey
    /// border.
    fn default() -> (r: Self)
        ensures
            r.gain@ == "#00ff00"@,
            r.loss@ == "#ff0000"@,
            r.neutral@ == "#ffffff"@,
            r.header@ == "#1e90ff"@,
            r.border@ == "#444444"@,
    {
        ColorConfig {
            gain: default_gain_color(),
            loss: default_loss_color(),
            neutral: default_neutral_color(),
            header: default_header_color(),
            border: default_border_color(),
        }
    }
}

/// A named symbol group.
#[derive(Debug, Clone)]
pub struct GroupConfig {
    /// The group's name.
    pub name: String,
    /// Its symbols.
    pub symbols: Vec<String>,
}

/// One persisted alert.
#[derive(Debug, Clone)]
pub struct AlertConfig {
    /// The condition's name: `above`, `below` or `equal`.
    pub condition: String,
    /// The target price, fixed point.
    pub price: i64,
}

/// The persisted alerts of one symbol.
#[derive(Debug, Clone)]
pub struct SymbolAlerts {
    /// The symbol.
    pub symbol: String,
    /// Its alerts in order.
    pub alerts: Vec<AlertConfig>,
}

/// Everything the configuration file supplies, parsed.
#[derive(Debug, Clone, Default)]
pub struct Config {
    /// General settings.
    pub general: GeneralConfig,
    /// The watchlist.
    pub watchlist: WatchlistConfig,
    /// Configured positions.
    pub holdings: Vec<HoldingConfig>,
    /// Display settings.
    pub display: DisplayConfig,
    /// Color scheme.
    pub colors: ColorConfig,
    /// Named symbol groups.
    pub groups: Vec<GroupConfig>,
    /// Persisted alerts per symbol.
    pub alerts: Vec<SymbolAlerts>,
}

/// Strings of `xs` appended to `acc` unless already present, in order.
pub open spec fn spec_add_missing(acc: Seq<String>, xs: Seq<String>) -> Seq<String>
    decreases xs.len(),
{
    if xs.len() == 0 {
        acc
    } else {
        let prev = spec_add_missing(acc, xs.drop_last());
        if views_of(prev).contains(xs.last()@) {
            prev
        } else {
            prev.push(xs.last())
        }
    }
}

/// The symbols of every group appended in turn, each skipped when
/// already present.
pub open spec fn spec_add_groups(acc: Seq<String>, gs: Seq<GroupConfig>) -> Seq<String>
    decreases gs.len(),
{
    if gs.len() == 0 {
        acc
    } else {
        spec_add_missing(spec_add_groups(acc, gs.drop_last()), gs.last().symbols@)
    }
}

/// The symbols of the configured holdings, in order.
pub open spec fn holding_symbols(hs: Seq<HoldingConfig>) -> Seq<String> {
    hs.map_values(|h: HoldingConfig| h.symbol)
}

impl Config {
    /// Every configured position is a bounded amount.
    pub open spec fn wf(self) -> bool {
        forall|i: int|
            0 <= i < self.holdings@.len() ==> in_range(
                (#[trigger] self.holdings@[i]).quantity as int,
            ) && in_range(self.holdings@[i].cost_basis as int)
    }

    /// All symbols the configuration mentions: the watchlist, then any
    /// holding's symbol not yet present, then each group's.
    pub fn all_symbols(&self) -> (r: Vec<String>)
        ensures
            r@ == spec_add_groups(
                spec_add_missing(self.watchlist.symbols@, holding_symbols(self.holdings@)),
                self.groups@,
            ),
    {
        let mut out = crate::state::clone_strings(&self.watchlist.symbols);
        let n = self.holdings.len();
        let mut i: usize = 0;
        while i < n
            invariant
                n == self.holdings@.len(),
                i <= n,
                out@ == spec_add_missing(
                    self.watchlist.symbols@,
                    holding_symbols(self.holdings@.subrange(0, i as int)),
                ),
            decreases n - i,
        {
            proof {
                let pre = holding_symbols(self.holdings@.subrange(0, i as int));
                let pre1 = holding_symbols(self.holdings@.subrange(0, i as int + 1));
                assert(pre1 =~= pre.push(self.holdings@[i as int].symbol));
                assert(pre1.drop_last() =~= pre);
            }
            if !crate::fetch::contains_view(&out, self.holdings[i].symbol.as_str()) {
                out.push(self.holdings[i].symbol.clone());
            }
            i += 1;
        }
        proof {
            assert(self.holdings@.subrange(0, n as int) =~= self.holdings@);
        }
        let m = self.groups.len();
        let mut g: usize = 0;
        while g < m
            invariant
                m == self.groups@.len(),
                g <= m,
                out@ == spec_add_groups(
                    spec_add_missing(self.watchlist.symbols@, holding_symbols(self.holdings@)),
                    self.groups@.subrange(0, g as int),
                ),
            decreases m - g,
        {
            proof {
                assert(self.groups@.subrange(0, g + 1) =~= self.groups@.subrange(0, g as int).push(
                    self.groups@[g as int],
                ));
                assert(self.groups@.subrange(0, g + 1).drop_last() =~= self.groups@.subrange(
                    0,
                    g as int,
                ));
            }
            let ghost before = out@;
            let syms = &self.groups[g].symbols;
            let k = syms.len();
            let mut j: usize = 0;
            while j < k
                invariant
                    k == syms@.len(),
                    j <= k,
                    out@ == spec_add_missing(before, syms@.subrange(0, j as int)),
                decreases k - j,
            {
                proof {
                    assert(syms@.subrange(0, j + 1) =~= syms@.subrange(0, j as int).push(
                        syms@[j as int],
                    ));
                    assert(syms@.subrange(0, j + 1).drop_last() =~= syms@.subrange(0, j as int));
                }
                if !crate::fetch::contains_view(&out, syms[j].as_str()) {
                    out.push(syms[j].clone());
                }
                j += 1;
            }
            proof {
                assert(syms@.subrange(0, k as int) =~= syms@);
            }
            g += 1;
        }
        proof {
            assert(self.groups@.subrange(0, m as int) =~= self.groups@);
        }
        out
    }

    /// The configured positions as engine holdings.
    pub fn get_holdings(&self) -> (r: Vec<Holding>)
        requires
            self.wf(),
        ensures
            r@.len() == self.holdings@.len(),
            forall|i: int|
                0 <= i < r@.len() ==> {
                    &&& (#[trigger] r@[i]).symbol == self.holdings@[i].symbol
                    &&& r@[i].quantity == self.holdings@[i].quantity
                    &&& r@[i].cost_basis == self.holdings@[i].cost_basis
                    &&& r@[i].wf()
                },
    {
        let n = self.holdings.len();
        let mut out: Vec<Holding> = Vec::new();
        let mut i: usize = 0;
        while i < n
            invariant
                self.wf(),
                n == self.holdings@.len(),
                i <= n,
                out@.len() == i,
                forall|j: int|
                    0 <= j < i ==> {
                        &&& (#[trigger] out@[j]).symbol == self.holdings@[j].symbol
                        &&& out@[j].quantity == self.holdings@[j].quantity
                        &&& out@[j].cost_basis == self.holdings@[j].cost_basis
                        &&& out@[j].wf()
                    },
            decreases n - i,
        {
            let h = &self.holdings[i];
            out.push(
                Holding {
                    symbol: h.symbol.clone(),
                    quantity: h.quantity,
                    cost_basis: h.cost_basis,
                },
            );
            i += 1;
        }
        out
    }
}

/// A sample configuration file.
pub fn sample_config() -> (r: &'static str) {
    "# Stonktop Configuration File\n# A top-like terminal UI for stock and crypto prices\n\n[general]\n# Refresh interval in seconds\nrefresh_interval = 5.0\n# API timeout in seconds\ntimeout = 10\n# Default currency for display\ncurrency = \"USD\"\n\n[watchlist]\n# Symbols to track\nsymbols = [\n    \"AAPL\",\n    \"GOOGL\",\n    \"MSFT\",\n    \"AMZN\",\n    \"NVDA\",\n    \"BTC-USD\",\n    \"ETH-USD\",\n]\n\n# Portfolio holdings (optional)\n[[holdings]]\nsymbol = \"AAPL\"\nquantity = 10\ncost_basis = 150.00\n\n[[holdings]]\nsymbol = \"BTC-USD\"\nquantity = 0.5\ncost_basis = 30000.00\n\n[display]\n# Show summary header\nshow_header = true\n# Show fundamental data (open, high, low)\nshow_fundamentals = false\n# Show portfolio holdings\nshow_holdings = false\n# Show separators between groups\nshow_separators = true\n# Default sort field: symbol, name, price, change, change_percent, volume, market_cap\nsort_by = \"change_percent\"\n# Sort in descending order\nsort_descending = true\n\n[colors]\n# Colors in hex format\ngain = \"#00ff00\"\nloss = \"#ff0000\"\nneutral = \"#ffffff\"\nheader = \"#1e90ff\"\nborder = \"#444444\"\n\n# Symbol groups (for organizing watchlists)\n[groups]\ntech = [\"AAPL\", \"GOOGL\", \"MSFT\", \"NVDA\"]\ncrypto = [\"BTC-USD\", \"ETH-USD\", \"SOL-USD\"]\n"
}

} // verus!
