//! History, indicators, cache, scheduler, and quote arithmetic.

use stonktop::cache::QuoteCache;
use stonktop::history::{History, PriceSeries};
use stonktop::quote::{Holding, Quote, change_of, change_percent_of};
use stonktop::scheduler::RefreshScheduler;

fn fp(x: f64) -> i64 {
    (x * 10_000.0).round() as i64
}

#[test]
fn test_change_fields_follow_formula() {
    // previous close 100.0, price 102.0: change 2.0, +2% exactly
    let change = change_of(fp(102.0), fp(100.0));
    let percent = change_percent_of(fp(102.0), fp(100.0));
    assert_eq!(change, fp(2.0));
    assert_eq!(percent, 20_000);
    // without a previous close both are zero
    assert_eq!(change_of(fp(102.0), 0), 0);
    assert_eq!(change_percent_of(fp(102.0), 0), 0);
}

#[test]
fn test_history_cap_and_fifo_eviction() {
    let mut series = PriceSeries::new();
    for i in 0..105i64 {
        series.record(fp(10.0) + i);
    }
    assert_eq!(series.len(), 100);
    // the five oldest observations were evicted first
    assert_eq!(series.price_at(0), fp(10.0) + 5);
    assert_eq!(series.price_at(99), fp(10.0) + 104);
}

#[test]
fn test_history_per_symbol_isolation() {
    let mut history = History::new();
    history.record("AAPL", fp(10.0));
    history.record("MSFT", fp(20.0));
    history.record("AAPL", fp(11.0));
    assert_eq!(history.len_of("AAPL"), 2);
    assert_eq!(history.len_of("MSFT"), 1);
    assert_eq!(history.len_of("GOOG"), 0);
}

#[test]
fn test_rsi_needs_fifteen_points() {
    let mut series = PriceSeries::new();
    for i in 0..14i64 {
        series.record(fp(10.0) + i);
    }
    assert_eq!(series.rsi(), None);
}

#[test]
fn test_rsi_monotonic_rise_is_hundred() {
    let mut series = PriceSeries::new();
    for i in 0..15i64 {
        series.record(fp(10.0) + i * 100);
    }
    assert_eq!(series.rsi(), Some(1_000_000));
}

#[test]
fn test_rsi_stays_in_range() {
    let mut series = PriceSeries::new();
    let prices = [
        10.0, 10.5, 10.2, 11.0, 10.8, 11.5, 11.2, 12.0, 11.7, 12.5, 12.1, 13.0, 12.6, 13.5,
        13.2, 14.0, 13.8, 14.5,
    ];
    for p in prices {
        series.record(fp(p));
    }
    let rsi = series.rsi().unwrap();
    assert!(rsi >= 0 && rsi <= 1_000_000);
}

#[test]
fn test_sma_is_mean_of_last_period() {
    let mut series = PriceSeries::new();
    for p in [1.0, 2.0, 3.0, 4.0] {
        series.record(fp(p));
    }
    assert_eq!(series.sma(2), Some(fp(3.5)));
    assert_eq!(series.sma(4), Some(fp(2.5)));
    assert_eq!(series.sma(5), None);
}

#[test]
fn test_ema_of_constant_series_is_the_constant() {
    let mut series = PriceSeries::new();
    for _ in 0..30 {
        series.record(fp(42.0));
    }
    assert_eq!(series.ema(12), Some(fp(42.0)));
    assert_eq!(series.ema(26), Some(fp(42.0)));
}

#[test]
fn test_macd_needs_twenty_six_points() {
    let mut series = PriceSeries::new();
    for i in 0..25i64 {
        series.record(fp(10.0) + i);
    }
    assert_eq!(series.macd(), None);
}

#[test]
fn test_macd_of_constant_series_is_flat() {
    let mut series = PriceSeries::new();
    for _ in 0..30 {
        series.record(fp(42.0));
    }
    let (signal, line, histogram) = series.macd().unwrap();
    assert_eq!(line, 0);
    assert_eq!(signal, 0);
    assert_eq!(histogram, 0);
}

#[test]
fn test_sparkline_levels() {
    let mut series = PriceSeries::new();
    // fewer than two points: no sparkline
    assert!(series.spark_levels().is_empty());
    series.record(fp(1.0));
    assert!(series.spark_levels().is_empty());
    // a flat window renders the mid-height bar five times
    series.record(fp(1.0));
    assert_eq!(series.spark_levels(), vec![3, 3, 3, 3, 3]);
    // a rising window spans the levels
    let mut rising = PriceSeries::new();
    for p in [1.0, 2.0, 3.0, 4.0, 5.0] {
        rising.record(fp(p));
    }
    let levels = rising.spark_levels();
    assert_eq!(levels.len(), 5);
    assert_eq!(levels[0], 0);
    assert_eq!(levels[4], 7);
    assert!(levels.iter().all(|&l| l <= 7));
}

#[test]
fn test_cache_fresh_and_expired() {
    let mut cache = QuoteCache::new();
    let quote = Quote {
        symbol: "AAPL".to_string(),
        price: fp(150.0),
        ..Default::default()
    };
    let now = 1_000_000u64;
    cache.put(quote, now);
    // immediately after put the quote reads back
    let got = cache.get("AAPL", now).unwrap();
    assert_eq!(got.symbol, "AAPL");
    assert_eq!(got.price, fp(150.0));
    // still fresh just inside the time-to-live
    assert!(cache.get("AAPL", now + 29_999).is_some());
    // absent once the time-to-live has elapsed
    assert!(cache.get("AAPL", now + 30_000).is_none());
    // unknown symbols read as absent
    assert!(cache.get("MSFT", now).is_none());
}

#[test]
fn test_cache_purge_drops_only_stale_entries() {
    let mut cache = QuoteCache::new();
    let old_quote = Quote {
        symbol: "OLD".to_string(),
        ..Default::default()
    };
    let new_quote = Quote {
        symbol: "NEW".to_string(),
        ..Default::default()
    };
    cache.put(old_quote, 0);
    cache.put(new_quote, 40_000);
    cache.purge_expired(50_000);
    assert!(cache.get("OLD", 50_000).is_none());
    assert!(cache.get("NEW", 50_000).is_some());
}

#[test]
fn test_scheduler_interval_and_force() {
    let mut sched = RefreshScheduler::new(5_000);
    // nothing fetched yet: refresh at once
    assert!(sched.needs_refresh(0));
    sched.mark_refreshed(10_000);
    assert!(!sched.needs_refresh(14_999));
    assert!(sched.needs_refresh(15_000));
    // a forced refresh forgets the last success
    sched.force_refresh();
    assert!(sched.needs_refresh(10_001));
}

#[test]
fn test_scheduler_clamps_interval_floor() {
    let sched = RefreshScheduler::new(10);
    assert_eq!(sched.interval_ms, 1_000);
}

#[test]
fn test_scheduler_jitter_stays_in_band() {
    let mut sched = RefreshScheduler::new(10_000);
    sched.mark_refreshed(0);
    // ninety percent of the interval never suffices
    assert!(!sched.needs_refresh_jittered(8_999, 12345));
    // the full interval always does
    assert!(sched.needs_refresh_jittered(10_000, 98765));
}

#[test]
fn test_holding_valuations() {
    let h = Holding {
        symbol: "AAPL".to_string(),
        quantity: fp(10.0),
        cost_basis: fp(150.0),
    };
    assert_eq!(h.total_cost(), fp(1500.0));
    assert_eq!(h.current_value(fp(170.0)), fp(1700.0));
    assert_eq!(h.profit_loss(fp(170.0)), fp(200.0));
    // 200 / 1500 => 13.3333 percent, truncated at fixed-point precision
    assert_eq!(h.profit_loss_percent(fp(170.0)), 133_333);
    // a costless position reports zero percent
    let free = Holding {
        symbol: "GIFT".to_string(),
        quantity: fp(1.0),
        cost_basis: 0,
    };
    assert_eq!(free.profit_loss_percent(fp(10.0)), 0);
}

#[test]
fn test_ema_seeds_from_oldest_window() {
    // seed = mean of the two oldest prices (0), then one roll-forward
    // step over the third: 0 + trunc((1.0 - 0) * 2 / 3) = 0.6666
    let mut series = PriceSeries::new();
    series.record(0);
    series.record(0);
    series.record(fp(1.0));
    assert_eq!(series.ema(2), Some(6_666));
    // an oversized period is merely insufficient length, never an error
    assert_eq!(series.ema(500), None);
}

#[test]
fn test_scheduler_attempt_gating() {
    let mut sched = RefreshScheduler::new(5_000);
    assert!(sched.attempt_due(0));
    // after a (failed) attempt, the next one waits out the interval
    sched.mark_attempt(10_000);
    assert!(!sched.attempt_due(14_999));
    assert!(sched.attempt_due(15_000));
}
