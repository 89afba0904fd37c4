//! Quote and holding models.
//!
//! A [`Quote`] is an immutable snapshot of one instrument; its change
//! fields are derived from price and previous close and that derivation
//! is part of the type's well-formedness. A [`Holding`] is a portfolio
//! position whose valuations are computed here.

use vstd::prelude::*;
use crate::price::{FP_SCALE, MAX_AMOUNT, div_trunc, div_trunc_i64, in_range};
use crate::symbol::str_eq;

verus! {

/// Kind of financial instrument.
#[derive(Debug, Clone, Copy, PartialEq, Eq, Structural, Default)]
pub enum QuoteType {
    #[default]
    Equity,
    Cryptocurrency,
    Etf,
    MutualFund,
    Index,
    Currency,
    Future,
    Option,
}

/// Market trading session state.
#[derive(Debug, Clone, Copy, PartialEq, Eq, Structural, Default)]
pub enum MarketState {
    Pre,
    Regular,
    Post,
    #[default]
    Closed,
}

/// Fixed-point units of percent change per unit of relative change:
/// `100 * FP_SCALE`, so `+2.5%` is stored as `25_000`.
pub const PERCENT_SCALE: i64 = 1_000_000;

/// Absolute change versus previous close: zero when there is no
/// meaningful previous close.
pub open spec fn spec_change(price: int, previous_close: int) -> int {
    if previous_close > 0 {
        price - previous_close
    } else {
        0
    }
}

/// Percent change versus previous close, in fixed-point percent.
pub open spec fn spec_change_percent(price: int, previous_close: int) -> int {
    if previous_close > 0 {
        div_trunc((price - previous_close) * PERCENT_SCALE, previous_close)
    } else {
        0
    }
}

/// Snapshot of one instrument at one point in time.
#[derive(Debug)]
pub struct Quote {
    /// Ticker symbol, the unique key.
    pub symbol: String,
    /// Display name of the instrument.
    pub name: String,
    /// Current price.
    pub price: i64,
    /// Absolute change versus previous close.
    pub change: i64,
    /// Percent change versus previous close, in fixed-point percent.
    pub change_percent: i64,
    /// Previous closing price.
    pub previous_close: i64,
    /// Opening price of the day.
    pub open_price: i64,
    /// Highest price of the day.
    pub day_high: i64,
    /// Lowest price of the day.
    pub day_low: i64,
    /// Highest price over the last year.
    pub year_high: i64,
    /// Lowest price over the last year.
    pub year_low: i64,
    /// Trading volume.
    pub volume: u64,
    /// Average trading volume.
    pub avg_volume: u64,
    /// Market capitalization, when known.
    pub market_cap: Option<u64>,
    /// Currency code of the prices.
    pub currency: String,
    /// Exchange the instrument trades on.
    pub exchange: String,
    /// Kind of instrument.
    pub quote_type: QuoteType,
    /// Session state when captured.
    pub market_state: MarketState,
    /// Capture time, seconds since the epoch.
    pub timestamp: i64,
}

impl Quote {
    /// Well-formedness: prices are non-negative bounded amounts and the
    /// change fields are exactly the derived values.
    pub open spec fn wf(self) -> bool {
        &&& 0 <= self.price <= MAX_AMOUNT
        &&& 0 <= self.previous_close <= MAX_AMOUNT
        &&& 0 <= self.open_price <= MAX_AMOUNT
        &&& 0 <= self.day_high <= MAX_AMOUNT
        &&& 0 <= self.day_low <= MAX_AMOUNT
        &&& 0 <= self.year_high <= MAX_AMOUNT
        &&& 0 <= self.year_low <= MAX_AMOUNT
        &&& self.change == spec_change(self.price as int, self.previous_close as int)
        &&& self.change_percent == spec_change_percent(
            self.price as int,
            self.previous_close as int,
        )
    }
}

impl Default for Quote {
    /// An empty snapshot: zero prices in dollars, an equity, market
    /// closed, the epoch as capture time.
    fn default() -> (r: Self)
        ensures
            r.wf(),
            r.symbol@ == Seq::<char>::empty(),
            r.name@ == Seq::<char>::empty(),
            r.price == 0,
            r.change == 0,
            r.change_percent == 0,
            r.previous_close == 0,
            r.open_price == 0,
            r.day_high == 0,
            r.day_low == 0,
            r.year_high == 0,
            r.year_low == 0,
            r.volume == 0,
            r.avg_volume == 0,
            r.market_cap is None,
            r.currency@ == "USD"@,
            r.exchange@ == Seq::<char>::empty(),
            r.quote_type == QuoteType::Equity,
            r.market_state == MarketState::Closed,
            r.timestamp == 0,
    {
        Quote {
            symbol: String::new(),
            name: String::new(),
            price: 0,
            change: 0,
            change_percent: 0,
            previous_close: 0,
            open_price: 0,
            day_high: 0,
            day_low: 0,
            year_high: 0,
            year_low: 0,
            volume: 0,
            avg_volume: 0,
            market_cap: None,
            currency: String::from_str("USD"),
            exchange: String::new(),
            quote_type: QuoteType::Equity,
            market_state: MarketState::Closed,
            timestamp: 0,
        }
    }
}

impl Clone for Quote {
    /// A clone is field-for-field the same snapshot.
    fn clone(&self) -> (res: Self)
        ensures
            res == *self,
    {
        Quote {
            symbol: self.symbol.clone(),
            name: self.name.clone(),
            price: self.price,
            change: self.change,
            change_percent: self.change_percent,
            previous_close: self.previous_close,
            open_price: self.open_price,
            day_high: self.day_high,
            day_low: self.day_low,
            year_high: self.year_high,
            year_low: self.year_low,
            volume: self.volume,
            avg_volume: self.avg_volume,
            market_cap: self.market_cap,
            currency: self.currency.clone(),
            exchange: self.exchange.clone(),
            quote_type: self.quote_type,
            market_state: self.market_state,
            timestamp: self.timestamp,
        }
    }
}

/// The change fields of a well-formed quote obey the published formula:
/// with a positive previous close they are the (truncated) difference and
/// percent difference, otherwise both are zero.
pub proof fn lemma_quote_change_consistent(q: Quote)
    requires
        q.wf(),
    ensures
        q.previous_close > 0 ==> q.change == q.price - q.previous_close,
        q.previous_close > 0 ==> q.change_percent == div_trunc(
            (q.price - q.previous_close) * PERCENT_SCALE,
            q.previous_close as int,
        ),
        q.previous_close <= 0 ==> q.change == 0 && q.change_percent == 0,
{
}

/// Compute the absolute change field for a quote.
pub fn change_of(price: i64, previous_close: i64) -> (r: i64)
    requires
        0 <= price <= MAX_AMOUNT,
        0 <= previous_close <= MAX_AMOUNT,
    ensures
        r == spec_change(price as int, previous_close as int),
{
    if previous_close > 0 {
        price - previous_close
    } else {
        0
    }
}

/// Compute the percent change field for a quote.
pub fn change_percent_of(price: i64, previous_close: i64) -> (r: i64)
    requires
        0 <= price <= MAX_AMOUNT,
        0 <= previous_close <= MAX_AMOUNT,
    ensures
        r == spec_change_percent(price as int, previous_close as int),
{
    if previous_close > 0 {
        let num = (price - previous_close) * PERCENT_SCALE;
        div_trunc_i64(num, previous_close)
    } else {
        0
    }
}

/// Map a provider instrument-type tag to a [`QuoteType`]; anything
/// unrecognized counts as equity.
pub open spec fn spec_parse_quote_type(s: Option<&str>) -> QuoteType {
    match s {
        Some(t) => if t@ == "EQUITY"@ {
            QuoteType::Equity
        } else if t@ == "CRYPTOCURRENCY"@ {
            QuoteType::Cryptocurrency
        } else if t@ == "ETF"@ {
            QuoteType::Etf
        } else if t@ == "MUTUALFUND"@ {
            QuoteType::MutualFund
        } else if t@ == "INDEX"@ {
            QuoteType::Index
        } else if t@ == "CURRENCY"@ {
            QuoteType::Currency
        } else if t@ == "FUTURE"@ {
            QuoteType::Future
        } else if t@ == "OPTION"@ {
            QuoteType::Option
        } else {
            QuoteType::Equity
        },
        None => QuoteType::Equity,
    }
}

/// Parse a provider instrument-type tag.
pub fn parse_quote_type(s: Option<&str>) -> (r: QuoteType)
    ensures
        r == spec_parse_quote_type(s),
{
    match s {
        Some(t) => {
            if str_eq(t, "EQUITY") {
                QuoteType::Equity
            } else if str_eq(t, "CRYPTOCURRENCY") {
                QuoteType::Cryptocurrency
            } else if str_eq(t, "ETF") {
                QuoteType::Etf
            } else if str_eq(t, "MUTUALFUND") {
                QuoteType::MutualFund
            } else if str_eq(t, "INDEX") {
                QuoteType::Index
            } else if str_eq(t, "CURRENCY") {
                QuoteType::Currency
            } else if str_eq(t, "FUTURE") {
                QuoteType::Future
            } else if str_eq(t, "OPTION") {
                QuoteType::Option
            } else {
                QuoteType::Equity
            }
        },
        None => QuoteType::Equity,
    }
}

/// Map a provider session tag to a [`MarketState`]; anything
/// unrecognized counts as closed.
pub open spec fn spec_parse_market_state(s: Option<&str>) -> MarketState {
    match s {
        Some(t) => if t@ == "PRE"@ {
            MarketState::Pre
        } else if t@ == "REGULAR"@ {
            MarketState::Regular
        } else if t@ == "POST"@ || t@ == "POSTPOST"@ {
            MarketState::Post
        } else {
            MarketState::Closed
        },
        None => MarketState::Closed,
    }
}

/// Parse a provider session tag.
pub fn parse_market_state(s: Option<&str>) -> (r: MarketState)
    ensures
        r == spec_parse_market_state(s),
{
    match s {
        Some(t) => {
            if str_eq(t, "PRE") {
                MarketState::Pre
            } else if str_eq(t, "REGULAR") {
                MarketState::Regular
            } else if str_eq(t, "POST") || str_eq(t, "POSTPOST") {
                MarketState::Post
            } else {
                MarketState::Closed
            }
        },
        None => MarketState::Closed,
    }
}

/// A portfolio position, read-only during a session.
#[derive(Debug)]
pub struct Holding {
    /// Ticker symbol the position is in.
    pub symbol: String,
    /// Units held; fractional and negative amounts are allowed.
    pub quantity: i64,
    /// Average cost per unit.
    pub cost_basis: i64,
}

/// An integer forced into the `i64` range.
pub open spec fn clamp_i64(x: int) -> int {
    if x > i64::MAX {
        i64::MAX as int
    } else if x < i64::MIN {
        i64::MIN as int
    } else {
        x
    }
}

/// Fixed-point product of two amounts: `a * b / FP_SCALE`, truncated.
pub open spec fn spec_fp_mul(a: int, b: int) -> int {
    div_trunc(a * b, FP_SCALE as int)
}

/// Multiply two bounded amounts in fixed point.
pub fn fp_mul(a: i64, b: i64) -> (r: i64)
    requires
        in_range(a as int),
        in_range(b as int),
    ensures
        r == spec_fp_mul(a as int, b as int),
        -1_000_000_000_000_000_000 <= r <= 1_000_000_000_000_000_000,
{
    proof {
        assert((a as int) * (b as int) <= (MAX_AMOUNT as int) * (MAX_AMOUNT as int) && (a as int)
            * (b as int) >= -((MAX_AMOUNT as int) * (MAX_AMOUNT as int))) by (nonlinear_arith)
            requires
                -(MAX_AMOUNT as int) <= a as int <= MAX_AMOUNT as int,
                -(MAX_AMOUNT as int) <= b as int <= MAX_AMOUNT as int,
        ;
    }
    let p: i128 = (a as i128) * (b as i128);
    let q: i128 = if p >= 0 {
        p / (FP_SCALE as i128)
    } else {
        -(-p / (FP_SCALE as i128))
    };
    q as i64
}

impl Clone for Holding {
    /// A clone is field-for-field the same position.
    fn clone(&self) -> (res: Self)
        ensures
            res == *self,
    {
        Holding {
            symbol: self.symbol.clone(),
            quantity: self.quantity,
            cost_basis: self.cost_basis,
        }
    }
}

impl Holding {
    /// Both amounts of the position are in the engine's range.
    pub open spec fn wf(self) -> bool {
        &&& in_range(self.quantity as int)
        &&& in_range(self.cost_basis as int)
    }

    /// What the position cost: quantity times cost basis.
    pub fn total_cost(&self) -> (r: i64)
        requires
            self.wf(),
        ensures
            r == spec_fp_mul(self.quantity as int, self.cost_basis as int),
            -1_000_000_000_000_000_000 <= r <= 1_000_000_000_000_000_000,
    {
        fp_mul(self.quantity, self.cost_basis)
    }

    /// What the position is worth at the given price.
    pub fn current_value(&self, price: i64) -> (r: i64)
        requires
            self.wf(),
            in_range(price as int),
        ensures
            r == spec_fp_mul(self.quantity as int, price as int),
            -1_000_000_000_000_000_000 <= r <= 1_000_000_000_000_000_000,
    {
        fp_mul(self.quantity, price)
    }

    /// Profit or loss at the given price.
    pub fn profit_loss(&self, price: i64) -> (r: i64)
        requires
            self.wf(),
            in_range(price as int),
        ensures
            r == spec_fp_mul(self.quantity as int, price as int) - spec_fp_mul(
                self.quantity as int,
                self.cost_basis as int,
            ),
    {
        let value = self.current_value(price);
        let cost = self.total_cost();
        value - cost
    }

    /// Profit or loss as fixed-point percent of cost; zero when the
    /// position cost nothing. An out-of-range ratio is clamped to the
    /// `i64` bounds.
    pub fn profit_loss_percent(&self, price: i64) -> (r: i64)
        requires
            self.wf(),
            in_range(price as int),
        ensures
            ({
                let cost = spec_fp_mul(self.quantity as int, self.cost_basis as int);
                let pl = spec_fp_mul(self.quantity as int, price as int) - cost;
                if cost == 0 {
                    r == 0
                } else if cost > 0 {
                    r == clamp_i64(div_trunc(pl * PERCENT_SCALE, cost))
                } else {
                    r == clamp_i64(div_trunc(-pl * PERCENT_SCALE, -cost))
                }
            }),
    {
        let cost = self.total_cost();
        let pl = self.profit_loss(price);
        if cost == 0 {
            0
        } else {
            let num: i128 = (pl as i128) * (PERCENT_SCALE as i128);
            let den: i128 = if cost >= 0 {
                cost as i128
            } else {
                -(cost as i128)
            };
            let n2: i128 = if cost >= 0 {
                num
            } else {
                -num
            };
            let q: i128 = if n2 >= 0 {
                n2 / den
            } else {
                -(-n2 / den)
            };
            if q > (i64::MAX as i128) {
                i64::MAX
            } else if q < (i64::MIN as i128) {
                i64::MIN
            } else {
                q as i64
            }
        }
    }
}

} // verus!
