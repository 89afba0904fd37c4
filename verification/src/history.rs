//! Rolling price history and technical indicators.
//!
//! Each watched symbol owns a bounded, append-only series of observed
//! prices; indicators (SMA, RSI, EMA, MACD) and sparkline levels are
//! derived from it on demand and never stored.

use vstd::prelude::*;
use crate::price::{MAX_AMOUNT, div_trunc, div_trunc_i64};
use crate::keyed::{
    Keyed, spec_find, find_index, lemma_find_props, lemma_find_update, lemma_find_push,
};
use crate::symbol::str_eq;

verus! {

/// Most prices a series keeps; the oldest is evicted beyond this.
pub const HISTORY_CAP: usize = 100;

/// Sum of a sequence of prices.
pub open spec fn spec_sum(s: Seq<i64>) -> int
    decreases s.len(),
{
    if s.len() == 0 {
        0
    } else {
        spec_sum(s.drop_last()) + s.last()
    }
}

/// Sum of a sequence of mathematical integers.
pub open spec fn spec_sum_int(s: Seq<int>) -> int
    decreases s.len(),
{
    if s.len() == 0 {
        0
    } else {
        spec_sum_int(s.drop_last()) + s.last()
    }
}

/// A sequence of prices the engine accepts: all in `[0, MAX_AMOUNT]`.
pub open spec fn prices_in_range(s: Seq<i64>) -> bool {
    forall|i: int| 0 <= i < s.len() ==> 0 <= #[trigger] s[i] <= MAX_AMOUNT
}

/// Sums of in-range prices are bounded by length times the bound.
pub proof fn lemma_sum_bounds(s: Seq<i64>)
    requires
        prices_in_range(s),
    ensures
        0 <= spec_sum(s) <= s.len() * MAX_AMOUNT,
    decreases s.len(),
{
    if s.len() > 0 {
        lemma_sum_bounds(s.drop_last());
    }
}

/// Mean of the most recent `period` prices, truncated.
pub open spec fn spec_sma(s: Seq<i64>, period: int) -> int {
    spec_sum(s.subrange(s.len() - period, s.len() as int)) / period
}

/// A bounded rolling series of observed prices for one symbol.
#[derive(Debug, Clone)]
pub struct PriceSeries {
    prices: Vec<i64>,
}

impl View for PriceSeries {
    type V = Seq<i64>;

    closed spec fn view(&self) -> Seq<i64> {
        self.prices@
    }
}

impl PriceSeries {
    /// At most `HISTORY_CAP` prices, all in range.
    pub open spec fn wf(self) -> bool {
        &&& self@.len() <= HISTORY_CAP
        &&& prices_in_range(self@)
    }

    /// An empty series.
    pub fn new() -> (r: PriceSeries)
        ensures
            r.wf(),
            r@ == Seq::<i64>::empty(),
    {
        PriceSeries { prices: Vec::new() }
    }

    /// How many prices are recorded.
    pub fn len(&self) -> (r: usize)
        ensures
            r == self@.len(),
    {
        self.prices.len()
    }

    /// The price at a position, oldest first.
    pub fn price_at(&self, i: usize) -> (r: i64)
        requires
            i < self@.len(),
        ensures
            r == self@[i as int],
    {
        self.prices[i]
    }

    /// Append an observation; beyond the cap the oldest price leaves
    /// first.
    pub fn record(&mut self, price: i64)
        requires
            old(self).wf(),
            0 <= price <= MAX_AMOUNT,
        ensures
            final(self).wf(),
            old(self)@.len() < HISTORY_CAP ==> final(self)@ == old(self)@.push(price),
            old(self)@.len() == HISTORY_CAP ==> final(self)@ == old(self)@.subrange(
                1,
                HISTORY_CAP as int,
            ).push(price),
            final(self)@.len() <= HISTORY_CAP,
            final(self)@.last() == price,
    {
        self.prices.push(price);
        if self.prices.len() > HISTORY_CAP {
            self.prices.remove(0);
            proof {
                assert(self.prices@ =~= old(self)@.subrange(1, HISTORY_CAP as int).push(price));
            }
        }
    }

    /// Simple moving average of the last `period` prices; absent while
    /// fewer are recorded.
    pub fn sma(&self, period: usize) -> (r: Option<i64>)
        requires
            self.wf(),
            period >= 1,
        ensures
            match r {
                Option::None => self@.len() < period,
                Option::Some(v) => self@.len() >= period && v == spec_sma(self@, period as int)
                    && 0 <= v <= MAX_AMOUNT,
            },
    {
        let n = self.prices.len();
        if n < period {
            return None;
        }
        let from = n - period;
        let mut sum: i64 = 0;
        let mut i: usize = from;
        while i < n
            invariant
                self.wf(),
                n == self@.len(),
                from == n - period,
                period >= 1,
                from <= i <= n,
                sum == spec_sum(self@.subrange(from as int, i as int)),
                0 <= sum <= (i - from) * MAX_AMOUNT,
            decreases n - i,
        {
            proof {
                assert(self@.subrange(from as int, i + 1) =~= self@.subrange(
                    from as int,
                    i as int,
                ).push(self@[i as int]));
                assert(self@.subrange(from as int, i + 1).drop_last() =~= self@.subrange(
                    from as int,
                    i as int,
                ));
            }
            sum = sum + self.prices[i];
            i += 1;
        }
        proof {
            lemma_sum_bounds(self@.subrange(from as int, n as int));
            assert((sum as int) / (period as int) <= MAX_AMOUNT && (sum as int) / (period as int)
                >= 0) by (nonlinear_arith)
                requires
                    0 <= sum as int <= (period as int) * MAX_AMOUNT,
                    period as int >= 1,
            ;
        }
        let avg = sum / (period as i64);
        Some(avg)
    }
}

/// RSI lookback: that many consecutive deltas feed each average.
pub const RSI_PERIOD: usize = 14;

/// Fixed-point rendering of the value one hundred.
pub const FP_HUNDRED: i64 = 1_000_000;

/// Upward movement between two consecutive prices.
pub open spec fn spec_gain(prev: int, next: int) -> int {
    if next > prev {
        next - prev
    } else {
        0
    }
}

/// Downward movement between two consecutive prices.
pub open spec fn spec_loss(prev: int, next: int) -> int {
    if next < prev {
        prev - next
    } else {
        0
    }
}

/// Per-step gains of a series, one per consecutive pair.
pub open spec fn gains_of(s: Seq<i64>) -> Seq<int> {
    Seq::new((s.len() - 1) as nat, |i: int| spec_gain(s[i] as int, s[i + 1] as int))
}

/// Per-step losses of a series, one per consecutive pair.
pub open spec fn losses_of(s: Seq<i64>) -> Seq<int> {
    Seq::new((s.len() - 1) as nat, |i: int| spec_loss(s[i] as int, s[i + 1] as int))
}

/// Deltas the engine accepts: non-negative and bounded.
pub open spec fn deltas_in_range(d: Seq<int>) -> bool {
    forall|i: int| 0 <= i < d.len() ==> 0 <= #[trigger] d[i] <= MAX_AMOUNT
}

/// Sums of in-range deltas are bounded by length times the bound.
pub proof fn lemma_sum_int_bounds(d: Seq<int>)
    requires
        deltas_in_range(d),
    ensures
        0 <= spec_sum_int(d) <= d.len() * MAX_AMOUNT,
    decreases d.len(),
{
    if d.len() > 0 {
        lemma_sum_int_bounds(d.drop_last());
    }
}

/// Wilder's smoothed average of the first `n` deltas: the first
/// `RSI_PERIOD` feed a plain mean, each later delta is folded in with
/// weight one part in `RSI_PERIOD`.
pub open spec fn spec_wilder(d: Seq<int>, n: int) -> int
    decreases n,
{
    if n <= RSI_PERIOD {
        spec_sum_int(d.subrange(0, RSI_PERIOD as int)) / (RSI_PERIOD as int)
    } else {
        (spec_wilder(d, n - 1) * (RSI_PERIOD - 1) + d[n - 1]) / (RSI_PERIOD as int)
    }
}

/// Wilder averages of in-range deltas stay in range.
pub proof fn lemma_wilder_bounds(d: Seq<int>, n: int)
    requires
        deltas_in_range(d),
        d.len() >= RSI_PERIOD,
        RSI_PERIOD <= n <= d.len(),
    ensures
        0 <= spec_wilder(d, n) <= MAX_AMOUNT,
    decreases n,
{
    if n == RSI_PERIOD {
        lemma_sum_int_bounds(d.subrange(0, RSI_PERIOD as int));
    } else {
        lemma_wilder_bounds(d, n - 1);
    }
}

/// Wilder averages of all-zero deltas are zero.
pub proof fn lemma_wilder_zero(d: Seq<int>, n: int)
    requires
        d.len() >= RSI_PERIOD,
        RSI_PERIOD <= n <= d.len(),
        forall|i: int| 0 <= i < d.len() ==> #[trigger] d[i] == 0,
    ensures
        spec_wilder(d, n) == 0,
    decreases n,
{
    if n == RSI_PERIOD {
        lemma_sum_int_bounds(d.subrange(0, RSI_PERIOD as int));
        assert(deltas_in_range(d.subrange(0, RSI_PERIOD as int)));
        lemma_sum_int_zero(d.subrange(0, RSI_PERIOD as int));
    } else {
        lemma_wilder_zero(d, n - 1);
    }
}

/// The sum of an all-zero sequence is zero.
pub proof fn lemma_sum_int_zero(d: Seq<int>)
    requires
        forall|i: int| 0 <= i < d.len() ==> #[trigger] d[i] == 0,
    ensures
        spec_sum_int(d) == 0,
    decreases d.len(),
{
    if d.len() > 0 {
        lemma_sum_int_zero(d.drop_last());
    }
}

/// Relative strength index of a series with at least
/// `RSI_PERIOD + 1` prices, in fixed point: one hundred when no loss was
/// smoothed in, otherwise one hundred times the gain share.
pub open spec fn spec_rsi(s: Seq<i64>) -> int {
    let g = spec_wilder(gains_of(s), s.len() - 1);
    let l = spec_wilder(losses_of(s), s.len() - 1);
    if l == 0 {
        FP_HUNDRED as int
    } else {
        g * FP_HUNDRED / (g + l)
    }
}

/// A strictly rising series smooths in no loss, so its RSI is exactly
/// one hundred.
pub proof fn lemma_rsi_all_gains(s: Seq<i64>)
    requires
        s.len() >= RSI_PERIOD + 1,
        prices_in_range(s),
        forall|i: int| 0 <= i < s.len() - 1 ==> #[trigger] s[i] < s[i + 1],
    ensures
        spec_rsi(s) == FP_HUNDRED,
{
    assert(forall|i: int| 0 <= i < losses_of(s).len() ==> #[trigger] losses_of(s)[i] == 0);
    lemma_wilder_zero(losses_of(s), s.len() - 1);
}

impl PriceSeries {
    /// Wilder-smoothed RSI over the whole series; absent until
    /// `RSI_PERIOD + 1` prices are recorded, always within
    /// `[0, FP_HUNDRED]` otherwise.
    pub fn rsi(&self) -> (r: Option<i64>)
        requires
            self.wf(),
        ensures
            match r {
                Option::None => self@.len() < RSI_PERIOD + 1,
                Option::Some(v) => self@.len() >= RSI_PERIOD + 1 && v == spec_rsi(self@) && 0 <= v
                    <= FP_HUNDRED,
            },
    {
        let n = self.prices.len();
        if n < RSI_PERIOD + 1 {
            return None;
        }
        let ghost gs = gains_of(self@);
        let ghost ls = losses_of(self@);
        proof {
            assert(deltas_in_range(gs));
            assert(deltas_in_range(ls));
        }
        let mut gains: Vec<i64> = Vec::new();
        let mut losses: Vec<i64> = Vec::new();
        let mut i: usize = 1;
        while i < n
            invariant
                self.wf(),
                n == self@.len(),
                n >= RSI_PERIOD + 1,
                1 <= i <= n,
                gs == gains_of(self@),
                ls == losses_of(self@),
                gains@.len() == i - 1,
                losses@.len() == i - 1,
                forall|j: int| 0 <= j < i - 1 ==> #[trigger] gains@[j] as int == gs[j],
                forall|j: int| 0 <= j < i - 1 ==> #[trigger] losses@[j] as int == ls[j],
            decreases n - i,
        {
            let prev = self.prices[i - 1];
            let cur = self.prices[i];
            if cur > prev {
                gains.push(cur - prev);
                losses.push(0);
            } else {
                gains.push(0);
                losses.push(prev - cur);
            }
            i += 1;
        }
        let mut sum_g: i64 = 0;
        let mut sum_l: i64 = 0;
        let mut k: usize = 0;
        while k < RSI_PERIOD
            invariant
                n >= RSI_PERIOD + 1,
                gs.len() == n - 1,
                ls.len() == n - 1,
                deltas_in_range(gs),
                deltas_in_range(ls),
                gains@.len() == n - 1,
                losses@.len() == n - 1,
                forall|j: int| 0 <= j < n - 1 ==> #[trigger] gains@[j] as int == gs[j],
                forall|j: int| 0 <= j < n - 1 ==> #[trigger] losses@[j] as int == ls[j],
                k <= RSI_PERIOD,
                sum_g == spec_sum_int(gs.subrange(0, k as int)),
                sum_l == spec_sum_int(ls.subrange(0, k as int)),
                0 <= sum_g <= k * MAX_AMOUNT,
                0 <= sum_l <= k * MAX_AMOUNT,
            decreases RSI_PERIOD - k,
        {
            proof {
                assert(gs.subrange(0, k + 1) =~= gs.subrange(0, k as int).push(gs[k as int]));
                assert(gs.subrange(0, k + 1).drop_last() =~= gs.subrange(0, k as int));
                assert(ls.subrange(0, k + 1) =~= ls.subrange(0, k as int).push(ls[k as int]));
                assert(ls.subrange(0, k + 1).drop_last() =~= ls.subrange(0, k as int));
            }
            sum_g = sum_g + gains[k];
            sum_l = sum_l + losses[k];
            k += 1;
        }
        let mut avg_g = sum_g / (RSI_PERIOD as i64);
        let mut avg_l = sum_l / (RSI_PERIOD as i64);
        proof {
            assert(avg_g == spec_wilder(gs, RSI_PERIOD as int));
            assert(avg_l == spec_wilder(ls, RSI_PERIOD as int));
            lemma_wilder_bounds(gs, RSI_PERIOD as int);
            lemma_wilder_bounds(ls, RSI_PERIOD as int);
        }
        let mut m: usize = RSI_PERIOD;
        while m < n - 1
            invariant
                n >= RSI_PERIOD + 1,
                gs.len() == n - 1,
                ls.len() == n - 1,
                deltas_in_range(gs),
                deltas_in_range(ls),
                gains@.len() == n - 1,
                losses@.len() == n - 1,
                forall|j: int| 0 <= j < n - 1 ==> #[trigger] gains@[j] as int == gs[j],
                forall|j: int| 0 <= j < n - 1 ==> #[trigger] losses@[j] as int == ls[j],
                RSI_PERIOD <= m <= n - 1,
                avg_g == spec_wilder(gs, m as int),
                avg_l == spec_wilder(ls, m as int),
                0 <= avg_g <= MAX_AMOUNT,
                0 <= avg_l <= MAX_AMOUNT,
            decreases n - m,
        {
            proof {
                assert(gains@[m as int] as int == gs[m as int]);
                assert(losses@[m as int] as int == ls[m as int]);
                assert(0 <= gs[m as int] <= MAX_AMOUNT);
                assert(0 <= ls[m as int] <= MAX_AMOUNT);
                assert(RSI_PERIOD == 14);
                assert(avg_g * (RSI_PERIOD as i64 - 1) == avg_g * 13int);
                assert(avg_l * (RSI_PERIOD as i64 - 1) == avg_l * 13int);
            }
            avg_g = (avg_g * (RSI_PERIOD as i64 - 1) + gains[m]) / (RSI_PERIOD as i64);
            avg_l = (avg_l * (RSI_PERIOD as i64 - 1) + losses[m]) / (RSI_PERIOD as i64);
            proof {
                lemma_wilder_bounds(gs, m + 1);
                lemma_wilder_bounds(ls, m + 1);
            }
            m += 1;
        }
        if avg_l == 0 {
            Some(FP_HUNDRED)
        } else {
            proof {
                assert(avg_g * (FP_HUNDRED as int) / (avg_g + avg_l) <= FP_HUNDRED as int && 0
                    <= avg_g * (FP_HUNDRED as int) / (avg_g + avg_l)) by (nonlinear_arith)
                    requires
                        0 <= avg_g as int,
                        0 < avg_l as int,
                        avg_g as int + avg_l as int <= 2 * MAX_AMOUNT,
                ;
            }
            let num = avg_g * FP_HUNDRED;
            Some(num / (avg_g + avg_l))
        }
    }
}

/// Doubling then dividing by at least two never grows a non-negative
/// number.
pub proof fn lemma_div2_le(n: int, d: int)
    requires
        n >= 0,
        d >= 2,
    ensures
        0 <= (2 * n) / d <= n,
{
    assert(0 <= (2 * n) / d <= n) by (nonlinear_arith)
        requires
            n >= 0,
            d >= 2,
    ;
}

/// One exponential smoothing step with multiplier two over `p + 1`.
pub open spec fn spec_ema_step(e: int, x: int, p: int) -> int {
    e + div_trunc((x - e) * 2, p + 1)
}

/// A smoothing step lands between its two operands.
pub proof fn lemma_ema_step_in_range(e: int, x: int, p: int)
    requires
        p >= 1,
    ensures
        e <= x ==> e <= spec_ema_step(e, x, p) <= x,
        x <= e ==> x <= spec_ema_step(e, x, p) <= e,
{
    if x >= e {
        lemma_div2_le(x - e, p + 1);
    } else {
        lemma_div2_le(e - x, p + 1);
    }
}

/// Exponential smoothing folded over a sequence of prices, oldest
/// first.
pub open spec fn spec_ema_fold(seed: int, xs: Seq<i64>, p: int) -> int
    decreases xs.len(),
{
    if xs.len() == 0 {
        seed
    } else {
        spec_ema_step(spec_ema_fold(seed, xs.drop_last(), p), xs.last() as int, p)
    }
}

/// Exponential smoothing folded over mathematical integers.
pub open spec fn spec_ema_fold_int(seed: int, xs: Seq<int>, p: int) -> int
    decreases xs.len(),
{
    if xs.len() == 0 {
        seed
    } else {
        spec_ema_step(spec_ema_fold_int(seed, xs.drop_last(), p), xs.last(), p)
    }
}

/// A fold stays inside any interval holding its seed and inputs.
pub proof fn lemma_ema_fold_in_range(seed: int, xs: Seq<i64>, p: int, lo: int, hi: int)
    requires
        p >= 1,
        lo <= seed <= hi,
        forall|i: int| 0 <= i < xs.len() ==> lo <= #[trigger] xs[i] <= hi,
    ensures
        lo <= spec_ema_fold(seed, xs, p) <= hi,
    decreases xs.len(),
{
    if xs.len() > 0 {
        lemma_ema_fold_in_range(seed, xs.drop_last(), p, lo, hi);
        lemma_ema_step_in_range(spec_ema_fold(seed, xs.drop_last(), p), xs.last() as int, p);
    }
}

/// Exponential moving average of a series: seeded with the mean of the
/// oldest `p`-window, then rolled forward over every later price.
pub open spec fn spec_ema(s: Seq<i64>, p: int) -> int {
    let seed = spec_sum(s.subrange(0, p)) / p;
    spec_ema_fold(seed, s.subrange(p, s.len() as int), p)
}

/// The MACD line: fast minus slow exponential average.
pub open spec fn spec_macd_line(s: Seq<i64>) -> int {
    spec_ema(s, 12) - spec_ema(s, 26)
}

/// First prefix length the signal lookback may use: prefixes shorter
/// than the slow window have no MACD value.
pub open spec fn spec_macd_start(len: int) -> int {
    if len - 5 >= 25 {
        len - 5
    } else {
        25
    }
}

/// The MACD values the signal smooths: one per usable prefix among the
/// last five.
pub open spec fn macd_lookback(s: Seq<i64>) -> Seq<int> {
    Seq::new(
        (s.len() - spec_macd_start(s.len() as int)) as nat,
        |j: int| spec_macd_line(s.subrange(0, spec_macd_start(s.len() as int) + j + 1)),
    )
}

/// The signal line: the lookback's first value smoothed with the rest
/// at period nine.
pub open spec fn spec_macd_signal(s: Seq<i64>) -> int {
    let vals = macd_lookback(s);
    spec_ema_fold_int(vals[0], vals.drop_first(), 9)
}

impl PriceSeries {
    /// Exponential moving average of the first `upto` prices.
    fn ema_prefix(prices: &Vec<i64>, upto: usize, period: usize) -> (r: i64)
        requires
            prices_in_range(prices@),
            1 <= period <= HISTORY_CAP,
            period <= upto <= prices@.len(),
        ensures
            r == spec_ema(prices@.subrange(0, upto as int), period as int),
            0 <= r <= MAX_AMOUNT,
    {
        let ghost s = prices@.subrange(0, upto as int);
        let mut sum: i64 = 0;
        let mut i: usize = 0;
        while i < period
            invariant
                prices_in_range(prices@),
                s == prices@.subrange(0, upto as int),
                1 <= period <= HISTORY_CAP,
                period <= upto <= prices@.len(),
                i <= period,
                sum == spec_sum(s.subrange(0, i as int)),
                0 <= sum <= i * MAX_AMOUNT,
            decreases period - i,
        {
            proof {
                assert(s[i as int] == prices@[i as int]);
                assert(s.subrange(0, i + 1) =~= s.subrange(0, i as int).push(s[i as int]));
                assert(s.subrange(0, i + 1).drop_last() =~= s.subrange(0, i as int));
            }
            sum = sum + prices[i];
            i += 1;
        }
        proof {
            lemma_sum_bounds(s.subrange(0, period as int));
            assert((sum as int) / (period as int) <= MAX_AMOUNT && 0 <= (sum as int) / (
            period as int)) by (nonlinear_arith)
                requires
                    0 <= sum as int <= (period as int) * MAX_AMOUNT,
                    period as int >= 1,
            ;
        }
        let mut e: i64 = sum / (period as i64);
        let ghost seed = e as int;
        let mut j: usize = period;
        while j < upto
            invariant
                prices_in_range(prices@),
                s == prices@.subrange(0, upto as int),
                1 <= period <= HISTORY_CAP,
                period <= upto <= prices@.len(),
                period <= j <= upto,
                e == spec_ema_fold(seed, s.subrange(period as int, j as int), period as int),
                0 <= e <= MAX_AMOUNT,
            decreases upto - j,
        {
            proof {
                assert(s[j as int] == prices@[j as int]);
                assert(s.subrange(period as int, j + 1) =~= s.subrange(
                    period as int,
                    j as int,
                ).push(s[j as int]));
                assert(s.subrange(period as int, j + 1).drop_last() =~= s.subrange(
                    period as int,
                    j as int,
                ));
                lemma_ema_step_in_range(e as int, prices@[j as int] as int, period as int);
            }
            let x = prices[j];
            let delta = div_trunc_i64((x - e) * 2, period as i64 + 1);
            e = e + delta;
            j += 1;
        }
        proof {
            assert(s.subrange(period as int, upto as int) =~= s.subrange(
                period as int,
                s.len() as int,
            ));
        }
        e
    }

    /// Exponential moving average over the whole series; absent while
    /// fewer than `period` prices are recorded, oversized periods
    /// included.
    pub fn ema(&self, period: usize) -> (r: Option<i64>)
        requires
            self.wf(),
            period >= 1,
        ensures
            match r {
                Option::None => self@.len() < period,
                Option::Some(v) => self@.len() >= period && v == spec_ema(self@, period as int)
                    && 0 <= v <= MAX_AMOUNT,
            },
    {
        let n = self.prices.len();
        if n < period {
            return None;
        }
        let r = Self::ema_prefix(&self.prices, n, period);
        proof {
            assert(self@.subrange(0, n as int) =~= self@);
        }
        Some(r)
    }

    /// MACD triple `(signal, line, histogram)`; absent until the slow
    /// window has enough prices.
    pub fn macd(&self) -> (r: Option<(i64, i64, i64)>)
        requires
            self.wf(),
        ensures
            match r {
                Option::None => self@.len() < 26,
                Option::Some(t) => {
                    &&& self@.len() >= 26
                    &&& t.0 == spec_macd_signal(self@)
                    &&& t.1 == spec_macd_line(self@)
                    &&& t.2 == t.1 - t.0
                },
            },
    {
        let n = self.prices.len();
        if n < 26 {
            return None;
        }
        proof {
            assert(self@.subrange(0, n as int) =~= self@);
        }
        let ema12 = Self::ema_prefix(&self.prices, n, 12);
        let ema26 = Self::ema_prefix(&self.prices, n, 26);
        let line = ema12 - ema26;
        let start = if n >= 30 {
            n - 5
        } else {
            25
        };
        let ghost vals = macd_lookback(self@);
        proof {
            assert(start as int == spec_macd_start(self@.len() as int));
            assert(vals.len() == n - start);
        }
        let f12 = Self::ema_prefix(&self.prices, start + 1, 12);
        let f26 = Self::ema_prefix(&self.prices, start + 1, 26);
        let mut e = f12 - f26;
        proof {
            assert(vals[0] == e as int);
        }
        let mut i: usize = start + 1;
        while i < n
            invariant
                self.wf(),
                n == self@.len(),
                26 <= n,
                start as int == spec_macd_start(n as int),
                25 <= start < n,
                vals == macd_lookback(self@),
                vals.len() == n - start,
                start + 1 <= i <= n,
                e == spec_ema_fold_int(vals[0], vals.subrange(1, (i - start) as int), 9),
                -MAX_AMOUNT <= e <= MAX_AMOUNT,
            decreases n - i,
        {
            let m12 = Self::ema_prefix(&self.prices, i + 1, 12);
            let m26 = Self::ema_prefix(&self.prices, i + 1, 26);
            let v = m12 - m26;
            proof {
                assert(vals[i - start] == v as int);
                assert(vals.subrange(1, (i - start) + 1) =~= vals.subrange(
                    1,
                    (i - start) as int,
                ).push(vals[i - start]));
                assert(vals.subrange(1, (i - start) + 1).drop_last() =~= vals.subrange(
                    1,
                    (i - start) as int,
                ));
                lemma_ema_step_in_range(e as int, v as int, 9);
            }
            let delta = div_trunc_i64((v - e) * 2, 10);
            e = e + delta;
            i += 1;
        }
        proof {
            assert(vals.subrange(1, (n - start) as int) =~= vals.drop_first());
        }
        Some((e, line, line - e))
    }
}

/// The prices a sparkline draws: the last five, or all when fewer.
pub open spec fn spec_spark_window(s: Seq<i64>) -> Seq<i64> {
    if s.len() <= 5 {
        s
    } else {
        s.subrange(s.len() - 5, s.len() as int)
    }
}

/// Least element of a non-empty sequence.
pub open spec fn seq_min(s: Seq<i64>) -> int
    decreases s.len(),
{
    if s.len() <= 1 {
        s[0] as int
    } else {
        let m = seq_min(s.drop_last());
        if s.last() < m {
            s.last() as int
        } else {
            m
        }
    }
}

/// Greatest element of a non-empty sequence.
pub open spec fn seq_max(s: Seq<i64>) -> int
    decreases s.len(),
{
    if s.len() <= 1 {
        s[0] as int
    } else {
        let m = seq_max(s.drop_last());
        if s.last() > m {
            s.last() as int
        } else {
            m
        }
    }
}

/// Bar height of one price within a window: min–max normalization onto
/// eight levels.
pub open spec fn spec_spark_level(p: int, lo: int, hi: int) -> int {
    let idx = ((p - lo) * 799) / ((hi - lo) * 100);
    if idx > 7 {
        7
    } else {
        idx
    }
}

/// Bar heights of a series: empty below two prices, a flat mid-height
/// run of five when the window never moves, else one normalized level
/// per window price, oldest first.
pub open spec fn spec_spark_levels(s: Seq<i64>) -> Seq<u8> {
    if s.len() < 2 {
        Seq::empty()
    } else {
        let w = spec_spark_window(s);
        let lo = seq_min(w);
        let hi = seq_max(w);
        if lo == hi {
            Seq::new(5, |i: int| 3u8)
        } else {
            Seq::new(w.len(), |i: int| spec_spark_level(w[i] as int, lo, hi) as u8)
        }
    }
}

/// Elements of a non-empty in-range sequence surround its min and max.
pub proof fn lemma_min_max(s: Seq<i64>)
    requires
        s.len() >= 1,
        prices_in_range(s),
    ensures
        0 <= seq_min(s) <= seq_max(s) <= MAX_AMOUNT,
        forall|i: int| 0 <= i < s.len() ==> seq_min(s) <= #[trigger] s[i] <= seq_max(s),
    decreases s.len(),
{
    if s.len() > 1 {
        lemma_min_max(s.drop_last());
        assert(forall|i: int| 0 <= i < s.len() - 1 ==> s[i] == s.drop_last()[i]);
    }
}

impl PriceSeries {
    /// Sparkline bar heights for the recent window, each in `0..=7`.
    pub fn spark_levels(&self) -> (r: Vec<u8>)
        requires
            self.wf(),
        ensures
            r@ == spec_spark_levels(self@),
            forall|i: int| 0 <= i < r@.len() ==> #[trigger] r@[i] <= 7,
    {
        let n = self.prices.len();
        if n < 2 {
            let empty: Vec<u8> = Vec::new();
            proof {
                assert(empty@ =~= spec_spark_levels(self@));
            }
            return empty;
        }
        let from = if n <= 5 {
            0
        } else {
            n - 5
        };
        let ghost w = spec_spark_window(self@);
        proof {
            assert(w =~= self@.subrange(from as int, n as int));
            lemma_min_max(w);
        }
        let mut lo = self.prices[from];
        let mut hi = self.prices[from];
        let mut i: usize = from + 1;
        while i < n
            invariant
                self.wf(),
                n == self@.len(),
                2 <= n,
                from == if n <= 5 {
                    0int
                } else {
                    n - 5
                },
                w == spec_spark_window(self@),
                w =~= self@.subrange(from as int, n as int),
                from + 1 <= i <= n,
                lo == seq_min(w.subrange(0, i - from)),
                hi == seq_max(w.subrange(0, i - from)),
            decreases n - i,
        {
            proof {
                assert(w.subrange(0, i - from + 1) =~= w.subrange(0, i - from).push(
                    w[i - from],
                ));
                assert(w.subrange(0, i - from + 1).drop_last() =~= w.subrange(0, i - from));
                assert(w[i - from] == self@[i as int]);
            }
            let p = self.prices[i];
            if p < lo {
                lo = p;
            }
            if p > hi {
                hi = p;
            }
            i += 1;
        }
        proof {
            assert(w.subrange(0, w.len() as int) =~= w);
        }
        let mut out: Vec<u8> = Vec::new();
        if lo == hi {
            let mut k: usize = 0;
            while k < 5
                invariant
                    k <= 5,
                    out@.len() == k,
                    forall|j: int| 0 <= j < k ==> #[trigger] out@[j] == 3u8,
                decreases 5 - k,
            {
                out.push(3);
                k += 1;
            }
            proof {
                assert(out@ =~= spec_spark_levels(self@));
            }
            return out;
        }
        let mut k: usize = from;
        while k < n
            invariant
                self.wf(),
                n == self@.len(),
                2 <= n,
                from == if n <= 5 {
                    0int
                } else {
                    n - 5
                },
                w == spec_spark_window(self@),
                w =~= self@.subrange(from as int, n as int),
                prices_in_range(w),
                lo == seq_min(w),
                hi == seq_max(w),
                0 <= lo < hi <= MAX_AMOUNT,
                forall|j: int| 0 <= j < w.len() ==> lo <= #[trigger] w[j] <= hi,
                from <= k <= n,
                out@.len() == k - from,
                forall|j: int|
                    0 <= j < k - from ==> #[trigger] out@[j] == spec_spark_level(
                        w[j] as int,
                        lo as int,
                        hi as int,
                    ) as u8,
            decreases n - k,
        {
            proof {
                assert(w[k - from] == self@[k as int]);
            }
            let p = self.prices[k];
            let num = (p - lo) * 799;
            let den = (hi - lo) * 100;
            let idx = num / den;
            let level: u8 = if idx > 7 {
                7
            } else {
                idx as u8
            };
            out.push(level);
            k += 1;
        }
        proof {
            assert(out@ =~= spec_spark_levels(self@));
        }
        out
    }
}

/// One symbol's rolling history, keyed by the symbol.
#[derive(Debug, Clone)]
pub struct HistoryEntry {
    /// The symbol the series belongs to.
    pub symbol: String,
    /// The recorded prices.
    pub series: PriceSeries,
}

impl Keyed for HistoryEntry {
    open spec fn key(&self) -> Seq<char> {
        self.symbol@
    }

    fn key_is(&self, sym: &str) -> (r: bool) {
        str_eq(self.symbol.as_str(), sym)
    }
}

/// How one recording changes a series: appended, with the oldest price
/// evicted first once the cap is reached.
pub open spec fn spec_record(s: Seq<i64>, price: i64) -> Seq<i64> {
    if s.len() < HISTORY_CAP {
        s.push(price)
    } else {
        s.subrange(1, s.len() as int).push(price)
    }
}

/// Rolling price history for every watched symbol.
#[derive(Debug, Clone)]
pub struct History {
    entries: Vec<HistoryEntry>,
}

impl History {
    /// Every symbol appears once and every series is well-formed.
    pub closed spec fn wf(self) -> bool {
        &&& forall|i: int, j: int|
            0 <= i < j < self.entries@.len() ==> (#[trigger] self.entries@[i]).key() != (
            #[trigger] self.entries@[j]).key()
        &&& forall|i: int|
            0 <= i < self.entries@.len() ==> (#[trigger] self.entries@[i]).series.wf()
    }

    /// Where a symbol's entry sits, `-1` when absent.
    closed spec fn spec_index_of(self, sym: Seq<char>) -> int {
        spec_find(self.entries@, sym)
    }

    /// Whether the symbol has recorded history.
    pub closed spec fn has(self, sym: Seq<char>) -> bool {
        self.spec_index_of(sym) != -1
    }

    /// The prices recorded for a symbol, oldest first; empty when none.
    pub closed spec fn series_of(self, sym: Seq<char>) -> Seq<i64> {
        if self.has(sym) {
            self.entries@[self.spec_index_of(sym)].series@
        } else {
            Seq::empty()
        }
    }

    /// Every series a well-formed history holds is bounded and in
    /// range.
    pub proof fn lemma_series_bounded(self, sym: Seq<char>)
        requires
            self.wf(),
        ensures
            self.series_of(sym).len() <= HISTORY_CAP,
            prices_in_range(self.series_of(sym)),
    {
        lemma_find_props(self.entries@, sym);
    }

    /// An empty history.
    pub fn new() -> (r: History)
        ensures
            r.wf(),
            forall|sym: Seq<char>| !#[trigger] r.has(sym),
            forall|sym: Seq<char>| #[trigger] r.series_of(sym) == Seq::<i64>::empty(),
    {
        let r = History { entries: Vec::new() };
        proof {
            assert forall|sym: Seq<char>| !#[trigger] r.has(sym) by {
                lemma_find_props(r.entries@, sym);
            }
            assert forall|sym: Seq<char>| #[trigger] r.series_of(sym) == Seq::<i64>::empty() by {
                lemma_find_props(r.entries@, sym);
            }
        }
        r
    }

    /// Record one observed price for a symbol, creating its series on
    /// first sight.
    pub fn record(&mut self, symbol: &str, price: i64)
        requires
            old(self).wf(),
            0 <= price <= MAX_AMOUNT,
        ensures
            final(self).wf(),
            final(self).has(symbol@),
            final(self).series_of(symbol@) == spec_record(old(self).series_of(symbol@), price),
            forall|other: Seq<char>|
                other != symbol@ ==> #[trigger] final(self).series_of(other) == old(
                    self,
                ).series_of(other),
            forall|other: Seq<char>|
                other != symbol@ ==> (#[trigger] final(self).has(other) == old(self).has(other)),
    {
        let ghost s0 = self.entries@;
        match find_index(&self.entries, symbol) {
            Some(i) => {
                let mut entry = self.entries.remove(i);
                proof {
                    lemma_find_props(s0, symbol@);
                }
                entry.series.record(price);
                self.entries.insert(i, entry);
                proof {
                    let s1 = self.entries@;
                    assert(s1 =~= s0.update(i as int, s1[i as int]));
                    assert(s1[i as int].key() == s0[i as int].key());
                    assert forall|k: Seq<char>| #[trigger]
                        spec_find(s1, k) == spec_find(s0, k) by {
                        lemma_find_update(s0, i as int, s1[i as int], k);
                    }
                    assert(forall|j: int|
                        0 <= j < s1.len() && j != i ==> s1[j] == #[trigger] s0[j]);
                    assert forall|other: Seq<char>| other != symbol@ implies #[trigger] final(self).series_of(other) == old(self).series_of(other) by {
                        lemma_find_props(s0, other);
                    }
                }
            },
            None => {
                proof {
                    lemma_find_props(s0, symbol@);
                }
                let mut series = PriceSeries::new();
                series.record(price);
                let entry = HistoryEntry { symbol: String::from_str(symbol), series };
                self.entries.push(entry);
                proof {
                    let s1 = self.entries@;
                    let v = s1[s1.len() - 1];
                    assert(s1 =~= s0.push(v));
                    assert(v.key() == symbol@);
                    assert forall|k: Seq<char>| k != symbol@ implies #[trigger] spec_find(s1, k)
                        == spec_find(s0, k) by {
                        lemma_find_push(s0, v, k);
                    }
                    lemma_find_push(s0, v, symbol@);
                    assert(spec_find(s1, symbol@) == s0.len());
                    assert(v.series@ =~= spec_record(Seq::empty(), price));
                    assert forall|other: Seq<char>| other != symbol@ implies #[trigger] final(self).series_of(other) == old(self).series_of(other) by {
                        lemma_find_props(s0, other);
                        lemma_find_push(s0, v, other);
                    }
                }
            },
        }
    }

    /// RSI for a symbol's recorded history.
    pub fn rsi(&self, symbol: &str) -> (r: Option<i64>)
        requires
            self.wf(),
        ensures
            match r {
                Option::None => self.series_of(symbol@).len() < RSI_PERIOD + 1,
                Option::Some(v) => self.series_of(symbol@).len() >= RSI_PERIOD + 1 && v
                    == spec_rsi(self.series_of(symbol@)) && 0 <= v <= FP_HUNDRED,
            },
    {
        match find_index(&self.entries, symbol) {
            Some(i) => self.entries[i].series.rsi(),
            None => None,
        }
    }

    /// Simple moving average for a symbol's recorded history.
    pub fn sma(&self, symbol: &str, period: usize) -> (r: Option<i64>)
        requires
            self.wf(),
            period >= 1,
        ensures
            match r {
                Option::None => self.series_of(symbol@).len() < period,
                Option::Some(v) => self.series_of(symbol@).len() >= period && v == spec_sma(
                    self.series_of(symbol@),
                    period as int,
                ) && 0 <= v <= MAX_AMOUNT,
            },
    {
        match find_index(&self.entries, symbol) {
            Some(i) => self.entries[i].series.sma(period),
            None => None,
        }
    }

    /// MACD triple for a symbol's recorded history.
    pub fn macd(&self, symbol: &str) -> (r: Option<(i64, i64, i64)>)
        requires
            self.wf(),
        ensures
            match r {
                Option::None => self.series_of(symbol@).len() < 26,
                Option::Some(t) => {
                    &&& self.series_of(symbol@).len() >= 26
                    &&& t.0 == spec_macd_signal(self.series_of(symbol@))
                    &&& t.1 == spec_macd_line(self.series_of(symbol@))
                    &&& t.2 == t.1 - t.0
                },
            },
    {
        match find_index(&self.entries, symbol) {
            Some(i) => self.entries[i].series.macd(),
            None => None,
        }
    }

    /// Sparkline bar heights for a symbol's recent prices.
    pub fn spark_levels(&self, symbol: &str) -> (r: Vec<u8>)
        requires
            self.wf(),
        ensures
            r@ == spec_spark_levels(self.series_of(symbol@)),
            forall|i: int| 0 <= i < r@.len() ==> #[trigger] r@[i] <= 7,
    {
        match find_index(&self.entries, symbol) {
            Some(i) => self.entries[i].series.spark_levels(),
            None => {
                let empty: Vec<u8> = Vec::new();
                proof {
                    assert(empty@ =~= spec_spark_levels(self.series_of(symbol@)));
                }
                empty
            },
        }
    }

    /// How many prices a symbol has recorded.
    pub fn len_of(&self, symbol: &str) -> (r: usize)
        requires
            self.wf(),
        ensures
            r == self.series_of(symbol@).len(),
    {
        match find_index(&self.entries, symbol) {
            Some(i) => self.entries[i].series.len(),
            None => 0,
        }
    }
}

} // verus!
