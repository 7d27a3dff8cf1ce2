use polydelta::backtesting::{
    count_outcomes, holding_window, past_half_period, select_entry_indices, trade_outcome,
    try_holding_window,
    EntryInterval, HoldingWindow, TradeCounts, TradeOutcome,
};
use polydelta::calendar::UtcInstant;

const DAY: i64 = 86_400;
/// 2024-01-01 00:00:00 UTC, a Monday.
const JAN_1_2024: i64 = 1_704_067_200;

fn daily_stamps(n: usize) -> Vec<i64> {
    (0..n).map(|i| JAN_1_2024 + i as i64 * DAY).collect()
}

fn instants(secs: &[i64]) -> Vec<UtcInstant> {
    secs.iter().map(|&s| UtcInstant { secs: s, nanos: 0 }).collect()
}

#[test]
fn test_daily_entries_leave_a_holding_period() {
    let ts = daily_stamps(30);
    assert_eq!(select_entry_indices(&ts, "daily", 7), (0..23).collect::<Vec<_>>());
    assert_eq!(select_entry_indices(&ts, "unknown", 7), (0..23).collect::<Vec<_>>());
    assert!(select_entry_indices(&ts, "daily", 30).is_empty());
    assert!(select_entry_indices(&ts, "daily", -1).is_empty());
    assert_eq!(select_entry_indices(&ts, "daily", 0).len(), 30);
    assert!(select_entry_indices(&vec![], "daily", 7).is_empty());
}

#[test]
fn test_realistic_trade_count() {
    // 90 daily candles with a 7-day holding period give 83 entries
    let ts = daily_stamps(90);
    assert_eq!(select_entry_indices(&ts, "daily", 7).len(), 83);
}

#[test]
fn test_daily_entry_counts_per_holding_period() {
    // 821 daily candles: one entry per candle that leaves the holding period
    let ts = daily_stamps(821);
    for (days, expected) in [(1, 820), (3, 818), (7, 814), (14, 807), (30, 791)] {
        let e = select_entry_indices(&ts, "daily", days);
        assert_eq!(e.len(), expected);
        assert!(e.iter().enumerate().all(|(k, &i)| k == i));
    }
}

#[test]
fn test_weekly_entries_are_mondays() {
    let ts = daily_stamps(60);
    let weekly = select_entry_indices(&ts, "weekly", 7);
    assert_eq!(weekly, vec![0, 7, 14, 21, 28, 35, 42, 49]);
    let daily = select_entry_indices(&ts, "daily", 7);
    assert!(weekly.len() < daily.len());
}

#[test]
fn test_monthly_entries_first_of_month() {
    // Jan 1 .. Apr 9 2024, daily
    let ts = daily_stamps(100);
    let monthly = select_entry_indices(&ts, "monthly", 7);
    // Jan 1 (0), Feb 1 (31), Mar 1 (60, leap year), Apr 1 (91, below 100 - 7)
    assert_eq!(monthly, vec![0, 31, 60, 91]);
    // a gap: the first candle of a month counts even if it is not the 1st
    let sparse = vec![JAN_1_2024 + 5 * DAY, JAN_1_2024 + 40 * DAY, JAN_1_2024 + 41 * DAY, JAN_1_2024 + 70 * DAY];
    assert_eq!(select_entry_indices(&sparse, "monthly", 0), vec![0, 1, 3]);
}

#[test]
fn test_holding_window() {
    let ts = instants(&daily_stamps(10));
    let w = holding_window(&ts, 2, 3);
    assert_eq!(
        w,
        HoldingWindow {
            expiry: UtcInstant { secs: JAN_1_2024 + 5 * DAY, nanos: 0 },
            scan_end: 6,
            expiry_index: Some(5),
        }
    );
    let w = holding_window(&ts, 8, 7);
    assert_eq!(w.scan_end, 10);
    assert_eq!(w.expiry_index, None);
    // with a gap the expiry candle is the first one at or after the expiry
    let gap = instants(&[JAN_1_2024, JAN_1_2024 + DAY, JAN_1_2024 + 9 * DAY]);
    let w = holding_window(&gap, 0, 7);
    assert_eq!(w.scan_end, 2);
    assert_eq!(w.expiry_index, Some(2));
    assert_eq!(try_holding_window(&gap, 0, 7), Some(w));
    assert_eq!(try_holding_window(&gap, 0, i64::MAX / DAY), None);
}

#[test]
fn test_trade_outcome_rules() {
    assert!(!trade_outcome(true, false, true).won);
    assert!(trade_outcome(false, true, false).won);
    assert!(trade_outcome(false, false, true).won);
    assert!(!trade_outcome(false, false, false).won);
}

#[test]
fn test_count_outcomes() {
    let o = vec![
        trade_outcome(false, false, true),
        trade_outcome(true, false, true),
        trade_outcome(false, true, false),
        trade_outcome(false, false, false),
    ];
    let c = count_outcomes(&o);
    assert_eq!(
        c,
        TradeCounts { total_trades: 4, winning_trades: 2, losing_trades: 2, stopped_out: 1, took_profit: 1 }
    );
    assert_eq!(c.winning_trades + c.losing_trades, c.total_trades);
    let none: Vec<TradeOutcome> = vec![];
    assert_eq!(count_outcomes(&none).total_trades, 0);
}

#[test]
fn test_entry_interval_names() {
    assert_eq!(polydelta::backtesting::entry_interval("weekly"), EntryInterval::Weekly);
    assert_eq!(polydelta::backtesting::entry_interval("monthly"), EntryInterval::Monthly);
    assert_eq!(polydelta::backtesting::entry_interval("daily"), EntryInterval::Daily);
    assert_eq!(polydelta::backtesting::entry_interval("Weekly"), EntryInterval::Daily);
}

#[test]
fn test_calculate_structure_metrics() {
    let no_price = 1.0 - 0.7_f64;
    let cost = 0.6_f64 + no_price;
    let profit = 2.0 - cost;
    assert!((profit - 1.1).abs() < 1e-9);
}

#[test]
fn test_take_profit_waits_half_the_period() {
    // the float test `elapsed / duration >= 0.5`, on whole days
    for duration in [-9i64, -7, -1, 0, 1, 2, 7, 14, 30] {
        for elapsed in -20i64..=40 {
            let float_rule = elapsed as f64 / duration as f64 >= 0.5;
            assert_eq!(past_half_period(elapsed, duration), float_rule, "{elapsed} / {duration}");
        }
    }
    assert!(!past_half_period(3, 7));
    assert!(past_half_period(4, 7));
}
