//! The state controller, sorting, alerts, fetch planning and export.

use stonktop::alerts::{triggers, AlertCondition};
use stonktop::config::{AlertConfig, SymbolAlerts};
use stonktop::export::{export_csv, export_json, export_quotes, ExportFormat};
use stonktop::fetch::{merge_outcomes, normalize_symbols, plan_fetch, BatchResult, SymbolOutcome};
use stonktop::quote::{change_of, change_percent_of, Quote};
use stonktop::sort::{SortDirection, SortOrder};
use stonktop::state::{AlertSetupMode, AppState, SessionSettings};

fn fp(x: f64) -> i64 {
    (x * 10_000.0).round() as i64
}

fn default_settings() -> SessionSettings {
    SessionSettings {
        symbols: Vec::new(),
        holdings: Vec::new(),
        groups: Vec::new(),
        group_map: Vec::new(),
        interval_ms: 5_000,
        max_iterations: 0,
        sort_order: SortOrder::ChangePercent,
        sort_direction: SortDirection::Descending,
        batch_mode: false,
        secure_mode: false,
        show_holdings: false,
        show_fundamentals: false,
        high_contrast: false,
        audio_alerts: false,
    }
}

fn create_test_quote(symbol: &str, price: f64, change_percent: f64) -> Quote {
    // derive a consistent previous close from the wanted percent change
    let price_fp = fp(price);
    let previous_close = fp(price / (1.0 + change_percent / 100.0));
    Quote {
        symbol: symbol.to_string(),
        name: format!("{} Corp", symbol),
        price: price_fp,
        change: change_of(price_fp, previous_close),
        change_percent: change_percent_of(price_fp, previous_close),
        previous_close,
        ..Default::default()
    }
}

#[test]
fn test_sort_by_change_percent_descending() {
    let mut app = AppState::new(default_settings());
    app.quotes = vec![
        create_test_quote("A", 100.0, -1.0),
        create_test_quote("B", 100.0, 2.5),
        create_test_quote("C", 100.0, 0.0),
    ];
    app.sort_order = SortOrder::ChangePercent;
    app.sort_direction = SortDirection::Descending;

    app.sort_quotes();

    assert_eq!(app.quotes[0].symbol, "B"); // 2.5%
    assert_eq!(app.quotes[1].symbol, "C"); // 0.0%
    assert_eq!(app.quotes[2].symbol, "A"); // -1.0%
}

#[test]
fn test_sort_by_change_percent_ascending() {
    let mut app = AppState::new(default_settings());
    app.quotes = vec![
        create_test_quote("A", 100.0, -1.0),
        create_test_quote("B", 100.0, 2.5),
        create_test_quote("C", 100.0, 0.0),
    ];
    app.sort_order = SortOrder::ChangePercent;
    app.sort_direction = SortDirection::Ascending;

    app.sort_quotes();

    assert_eq!(app.quotes[0].symbol, "A"); // -1.0%
    assert_eq!(app.quotes[1].symbol, "C"); // 0.0%
    assert_eq!(app.quotes[2].symbol, "B"); // 2.5%
}

#[test]
fn test_sort_by_symbol() {
    let mut app = AppState::new(default_settings());
    app.quotes = vec![
        create_test_quote("ZZPQ", 100.0, 0.0),
        create_test_quote("AAPL", 100.0, 0.0),
        create_test_quote("MSFT", 100.0, 0.0),
    ];
    app.sort_order = SortOrder::Symbol;
    app.sort_direction = SortDirection::Ascending;

    app.sort_quotes();

    assert_eq!(app.quotes[0].symbol, "AAPL");
    assert_eq!(app.quotes[1].symbol, "MSFT");
    assert_eq!(app.quotes[2].symbol, "ZZPQ");
}

#[test]
fn test_sort_by_price() {
    let mut app = AppState::new(default_settings());
    app.quotes = vec![
        create_test_quote("A", 50.0, 0.0),
        create_test_quote("B", 200.0, 0.0),
        create_test_quote("C", 100.0, 0.0),
    ];
    app.sort_order = SortOrder::Price;
    app.sort_direction = SortDirection::Descending;

    app.sort_quotes();

    assert_eq!(app.quotes[0].price, fp(200.0));
    assert_eq!(app.quotes[1].price, fp(100.0));
    assert_eq!(app.quotes[2].price, fp(50.0));
}

#[test]
fn test_set_error_truncation() {
    let mut app = AppState::new(default_settings());
    let long_error = "x".repeat(150);
    app.set_error(&long_error);

    assert!(app.error.is_some());
    let error = app.error.unwrap();
    assert_eq!(error.len(), 100); // 97 chars + 1 for …
    assert!(error.ends_with("…"));
}

#[test]
fn test_set_error_short_message() {
    let mut app = AppState::new(default_settings());
    app.set_error("Short error");

    assert_eq!(app.error, Some("Short error".to_string()));
}

#[test]
fn test_set_active_group_bounds_check() {
    let mut app = AppState::new(default_settings());
    app.groups = vec!["Group1".to_string(), "Group2".to_string()];
    app.quotes = vec![create_test_quote("A", 100.0, 0.0)];
    app.selected = 0;

    app.set_active_group(0);
    assert_eq!(app.active_group, 0);

    app.set_active_group(1);
    assert_eq!(app.active_group, 1);

    // Out of bounds should not change
    app.set_active_group(5);
    assert_eq!(app.active_group, 1);
}

#[test]
fn test_select_navigation() {
    let mut app = AppState::new(default_settings());
    app.quotes = vec![
        create_test_quote("A", 100.0, 0.0),
        create_test_quote("B", 100.0, 0.0),
        create_test_quote("C", 100.0, 0.0),
    ];
    app.selected = 0;

    app.select_down();
    assert_eq!(app.selected, 1);

    app.select_up();
    assert_eq!(app.selected, 0);

    app.select_bottom();
    assert_eq!(app.selected, 2);

    app.select_top();
    assert_eq!(app.selected, 0);
}

#[test]
fn test_alert_above_and_equal_tolerance() {
    // Above 100.0 fires at 100.0 and 150.0, not at 99.99
    assert!(triggers(AlertCondition::Above, fp(100.0), fp(100.0)));
    assert!(triggers(AlertCondition::Above, fp(100.0), fp(150.0)));
    assert!(!triggers(AlertCondition::Above, fp(100.0), fp(99.99)));
    // Equal 100.0 fires within a cent, not past it
    assert!(triggers(AlertCondition::Equal, fp(100.0), fp(100.004)));
    assert!(!triggers(AlertCondition::Equal, fp(100.0), fp(100.02)));
    // Below fires at and under the target
    assert!(triggers(AlertCondition::Below, fp(100.0), fp(100.0)));
    assert!(!triggers(AlertCondition::Below, fp(100.0), fp(100.01)));
}

#[test]
fn test_check_alerts_rebuilds_triggered_list() {
    let mut app = AppState::new(default_settings());
    app.quotes = vec![create_test_quote("AAPL", 150.0, 0.0)];
    app.add_alert("AAPL", AlertCondition::Above, fp(100.0));
    app.add_alert("AAPL", AlertCondition::Below, fp(100.0));
    app.check_alerts();
    assert_eq!(app.triggered_alerts.len(), 1);
    assert_eq!(app.triggered_alerts[0].symbol, "AAPL");
    assert_eq!(app.triggered_alerts[0].condition, AlertCondition::Above);
    assert_eq!(app.triggered_alerts[0].price, fp(150.0));
    // the list is rebuilt, not appended, on the next pass
    app.check_alerts();
    assert_eq!(app.triggered_alerts.len(), 1);
}

#[test]
fn test_alert_setup_flow() {
    let mut app = AppState::new(default_settings());
    app.start_alert_setup("AAPL".to_string());
    // cycle conditions: Above -> Below -> Equal -> Above
    app.alert_next_condition();
    app.alert_next_condition();
    app.alert_next_condition();
    app.alert_prev_condition(); // back to Equal
    app.alert_prev_condition(); // back to Below
    app.alert_enter_price();
    for c in "100.5".chars() {
        app.alert_price_push(c);
    }
    // a second dot is refused
    app.alert_price_push('.');
    assert!(app.alert_confirm());
    assert!(app.alert_setup.is_none());
    let alerts = app.alerts.alerts_for("AAPL");
    assert_eq!(alerts, vec![(AlertCondition::Below, fp(100.5))]);
}

#[test]
fn test_alert_confirm_rejects_bad_price() {
    let mut app = AppState::new(default_settings());
    app.start_alert_setup("AAPL".to_string());
    app.alert_enter_price();
    app.alert_price_push('.');
    assert!(!app.alert_confirm());
    // the setup stays for another try
    assert!(matches!(
        app.alert_setup,
        Some((_, AlertSetupMode::EnterPrice(..)))
    ));
    app.alert_cancel();
    assert!(app.alert_setup.is_none());
}

#[test]
fn test_plan_fetch_partitions_symbols() {
    let symbols = vec![
        "AAPL".to_string(),
        "bad/sym".to_string(),
        "GOOGL".to_string(),
    ];
    let plan = plan_fetch(&symbols, 12);
    assert_eq!(plan.to_fetch, vec!["AAPL".to_string(), "GOOGL".to_string()]);
    assert_eq!(plan.failures.len(), 1);
    assert_eq!(plan.failures[0].0, "bad/sym");
    assert_eq!(plan.failures[0].1, "invalid symbol");
    assert_eq!(plan.max_concurrency, 12);
}

#[test]
fn test_plan_fetch_dedups_and_clamps_concurrency() {
    let symbols = vec![
        "AAPL".to_string(),
        "AAPL".to_string(),
        "MSFT".to_string(),
    ];
    let plan = plan_fetch(&symbols, 0);
    assert_eq!(plan.to_fetch, vec!["AAPL".to_string(), "MSFT".to_string()]);
    assert!(plan.failures.is_empty());
    assert_eq!(plan.max_concurrency, 1);
}

#[test]
fn test_merge_outcomes_keeps_every_symbol() {
    let planned = vec![("bad/sym".to_string(), "invalid symbol".to_string())];
    let outcomes = vec![
        SymbolOutcome {
            symbol: "GOOGL".to_string(),
            outcome: Err("timeout".to_string()),
        },
        SymbolOutcome {
            symbol: "AAPL".to_string(),
            outcome: Ok(create_test_quote("AAPL", 150.0, 1.0)),
        },
    ];
    let batch = merge_outcomes(planned, outcomes);
    assert_eq!(batch.quotes.len(), 1);
    assert_eq!(batch.quotes[0].symbol, "AAPL");
    assert_eq!(batch.failures.len(), 2);
    assert_eq!(batch.failures[0].0, "bad/sym");
    assert_eq!(batch.failures[1].0, "GOOGL");
    assert_eq!(batch.failures[1].1, "timeout");
}

#[test]
fn test_apply_batch_composes_a_cycle() {
    let mut app = AppState::new(default_settings());
    app.add_alert("AAPL", AlertCondition::Above, fp(100.0));
    let batch = BatchResult {
        quotes: vec![
            create_test_quote("AAPL", 150.0, 1.0),
            create_test_quote("MSFT", 300.0, -0.5),
        ],
        failures: vec![("bad/sym".to_string(), "invalid symbol".to_string())],
    };
    let now = 1_000_000u64;
    app.apply_batch(batch, now);

    assert_eq!(app.iteration, 1);
    assert_eq!(app.failures.len(), 1);
    // descending percent change puts the gainer first
    assert_eq!(app.quotes[0].symbol, "AAPL");
    assert_eq!(app.quotes[1].symbol, "MSFT");
    // a partial failure surfaces as a bounded warning
    assert_eq!(
        app.error.as_deref(),
        Some("Partial data: 1 symbol(s) failed")
    );
    // prices went into history and cache, stamped at the batch time
    assert_eq!(app.history.len_of("AAPL"), 1);
    assert!(app.get_cached_quote("AAPL", now + 29_999).is_some());
    assert!(app.get_cached_quote("AAPL", now + 30_000).is_none());
    assert_eq!(app.get_data_age("AAPL", now + 5_000), 5);
    assert_eq!(app.get_data_age("NOPE", now), 999);
    // the alert on the gainer fired
    assert_eq!(app.triggered_alerts.len(), 1);
    // the scheduler saw the success
    assert_eq!(app.scheduler.last_refresh, Some(now));
}

#[test]
fn test_search_filters_by_symbol_and_name() {
    let mut app = AppState::new(default_settings());
    app.quotes = vec![
        create_test_quote("AAPL", 150.0, 0.0),
        create_test_quote("MSFT", 300.0, 0.0),
    ];
    app.start_search("aap".to_string());
    assert_eq!(app.filtered_quotes.len(), 1);
    assert_eq!(app.filtered_quotes[0].symbol, "AAPL");
    assert_eq!(app.display_quotes().len(), 1);
    app.clear_search();
    assert_eq!(app.display_quotes().len(), 2);
}

#[test]
fn test_add_and_remove_symbol() {
    let mut app = AppState::new(default_settings());
    app.add_symbol("BTC");
    app.add_symbol("AAPL");
    app.add_symbol("BTC.X"); // expands to the same pair, not added twice
    assert_eq!(
        app.symbols,
        vec!["BTC-USD".to_string(), "AAPL".to_string()]
    );
    app.remove_symbol("BTC");
    assert_eq!(app.symbols, vec!["AAPL".to_string()]);
}

#[test]
fn test_alert_persistence_round_trip() {
    let mut app = AppState::new(default_settings());
    let persisted = vec![SymbolAlerts {
        symbol: "BTC".to_string(),
        alerts: vec![
            AlertConfig {
                condition: "Above".to_string(),
                price: fp(30_000.0),
            },
            AlertConfig {
                condition: "nonsense".to_string(),
                price: fp(1.0),
            },
        ],
    }];
    app.load_alerts_from_config(&persisted);
    // the symbol was expanded and the unknown condition skipped
    let loaded = app.alerts.alerts_for("BTC-USD");
    assert_eq!(loaded, vec![(AlertCondition::Above, fp(30_000.0))]);
    let saved = app.save_alerts_to_config();
    assert_eq!(saved.len(), 1);
    assert_eq!(saved[0].symbol, "BTC-USD");
    assert_eq!(saved[0].alerts.len(), 1);
    assert_eq!(saved[0].alerts[0].condition, "above");
    assert_eq!(saved[0].alerts[0].price, fp(30_000.0));
}

#[test]
fn test_export_csv() {
    let quotes = vec![create_export_quote("AAPL", 150.0)];
    let csv = export_csv(&quotes);
    assert!(csv.contains("Symbol,Name,Price"));
    assert!(csv.contains("AAPL"));
}

#[test]
fn test_export_json() {
    let quotes = vec![create_export_quote("AAPL", 150.0)];
    let json = export_json(&quotes);
    assert!(json.contains("\"symbol\": \"AAPL\""));
    assert!(json.contains("\"price\": 150.00"));
}

#[test]
fn test_export_text_banner() {
    let quotes = vec![create_export_quote("AAPL", 150.0)];
    let text = export_quotes(&quotes, ExportFormat::Text);
    assert!(text.starts_with("STONKTOP DATA EXPORT"));
    assert!(text.contains("Symbol: AAPL"));
    assert!(text.contains("Price: $150.00"));
}

fn create_export_quote(symbol: &str, price: f64) -> Quote {
    let price_fp = fp(price);
    let previous_close = fp(price - 1.0);
    Quote {
        symbol: symbol.to_string(),
        name: format!("{} Inc.", symbol),
        price: price_fp,
        change: change_of(price_fp, previous_close),
        change_percent: change_percent_of(price_fp, previous_close),
        previous_close,
        volume: 1_000_000,
        avg_volume: 2_000_000,
        market_cap: Some(100_000_000_000),
        exchange: "NASDAQ".to_string(),
        ..Default::default()
    }
}

#[test]
fn test_portfolio_totals() {
    let mut app = AppState::new(default_settings());
    app.holdings = vec![stonktop::quote::Holding {
        symbol: "AAPL".to_string(),
        quantity: fp(10.0),
        cost_basis: fp(100.0),
    }];
    app.quotes = vec![create_test_quote("AAPL", 150.0, 0.0)];
    assert_eq!(app.total_portfolio_cost(), fp(1000.0));
    assert_eq!(app.total_portfolio_value(), fp(1500.0));
    assert_eq!(app.total_portfolio_pnl(), fp(500.0));
}

#[test]
fn test_time_since_refresh_text() {
    let mut app = AppState::new(default_settings());
    assert_eq!(app.time_since_refresh(0), "never");
    app.scheduler.mark_refreshed(0);
    assert_eq!(app.time_since_refresh(5_000), "5s ago");
    assert_eq!(app.time_since_refresh(120_000), "2m ago");
}

#[test]
fn test_market_state_display() {
    let mut app = AppState::new(default_settings());
    assert_eq!(app.get_market_state_display(), "Unknown");
    app.quotes = vec![create_test_quote("AAPL", 1.0, 0.0)];
    assert_eq!(app.get_market_state_display(), "Market Closed");
}

#[test]
fn test_sparkline_glyphs() {
    let mut app = AppState::new(default_settings());
    for p in [1.0, 2.0, 3.0, 4.0, 5.0] {
        app.update_price_history("AAPL", fp(p));
    }
    let spark = app.get_sparkline("AAPL");
    assert_eq!(spark.chars().count(), 5);
    assert!(spark.starts_with('▁'));
    assert!(spark.ends_with('█'));
}

#[test]
fn test_apply_batch_total_failure_keeps_data() {
    let mut app = AppState::new(default_settings());
    // a first, successful cycle fills the table
    let good = BatchResult {
        quotes: vec![create_test_quote("AAPL", 150.0, 1.0)],
        failures: Vec::new(),
    };
    app.apply_batch(good, 1_000);
    assert_eq!(app.quotes.len(), 1);
    assert_eq!(app.iteration, 1);
    // a cycle where every symbol failed keeps the displayed data
    let bad = BatchResult {
        quotes: Vec::new(),
        failures: vec![
            ("AAPL".to_string(), "timeout".to_string()),
            ("MSFT".to_string(), "timeout".to_string()),
        ],
    };
    app.apply_batch(bad, 2_000);
    assert_eq!(app.quotes.len(), 1);
    assert_eq!(app.quotes[0].symbol, "AAPL");
    assert_eq!(app.iteration, 1);
    assert_eq!(app.scheduler.last_refresh, Some(1_000));
    assert_eq!(app.history.len_of("AAPL"), 1);
    assert_eq!(app.failures.len(), 2);
    assert_eq!(app.error.as_deref(), Some("All 2 symbol(s) failed"));
}

#[test]
fn test_normalize_symbols_expands_and_dedups() {
    let raw = vec![
        "BTC".to_string(),
        "AAPL".to_string(),
        "BTC.X".to_string(),
        "AAPL".to_string(),
    ];
    let normalized = normalize_symbols(&raw);
    assert_eq!(
        normalized,
        vec!["BTC-USD".to_string(), "AAPL".to_string()]
    );
}

#[test]
fn test_sort_keeps_equal_keys_in_order() {
    let mut app = AppState::new(default_settings());
    // three quotes with the same percent change, distinct symbols
    app.quotes = vec![
        create_test_quote("ZZPQ", 100.0, 0.0),
        create_test_quote("AAPL", 100.0, 0.0),
        create_test_quote("MSFT", 100.0, 0.0),
    ];
    app.sort_order = SortOrder::ChangePercent;
    app.sort_direction = SortDirection::Descending;
    app.sort_quotes();
    // equal keys keep their arrival order: the sort is stable
    assert_eq!(app.quotes[0].symbol, "ZZPQ");
    assert_eq!(app.quotes[1].symbol, "AAPL");
    assert_eq!(app.quotes[2].symbol, "MSFT");
}
