use polydelta::ai_advisor::build_system_prompt;
use polydelta::analytics::{Lcg, LCG_INCREMENT, LCG_MULTIPLIER};
use polydelta::calendar::UtcInstant;
use polydelta::calendar::{clock_secs, utc_date, whole_days_between, CALENDAR_MAX, CALENDAR_MIN};
use polydelta::db::{leg_won, pair_label, parse_pair_thresholds, settlement_due};
use polydelta::historical_data::{parse_candle_csv, split_commas_exec, split_lines, trim_chars};
use polydelta::polymarket_ws::{
    parse_timestamp_ms, subscription_batches, ws_step, TimestampField, WsAction, WsEvent, WsPhase,
};
use polydelta::scan::{scan_decision, scan_step, ScanAction, ScanDecision, ScanEvent, ScanLoop};
use polydelta::text::{chars_of, is_white_space, parse_u64, push_decimal, string_from_chars};

/// Thresholds in dollars as the settlement reads them from a pair label.
fn thresholds(label: &str) -> (f64, f64) {
    match parse_pair_thresholds(label) {
        Some((lo, hi)) => (
            lo.parse::<f64>().unwrap_or(0.0) * 1000.0,
            hi.parse::<f64>().unwrap_or(0.0) * 1000.0,
        ),
        None => (0.0, f64::MAX),
    }
}

#[test]
fn test_parse_pair_thresholds() {
    let (low, high) = thresholds("BTC $85k–$95k");
    assert!((low - 85000.0).abs() < 0.01);
    assert!((high - 95000.0).abs() < 0.01);

    let (low, high) = thresholds("unknown label");
    assert!((low - 0.0).abs() < 0.01);
    assert!(high > 1e18);
}

#[test]
fn test_pair_label_round_trip() {
    let label = pair_label("85", "95");
    assert_eq!(label, "BTC $85k–$95k");
    assert_eq!(parse_pair_thresholds(&label), Some(("85".to_string(), "95".to_string())));
    assert_eq!(parse_pair_thresholds("x $1k-$2k"), Some(("1".to_string(), "2".to_string())));
    assert_eq!(parse_pair_thresholds("$k–$2k"), None);
    assert_eq!(parse_pair_thresholds("$5k–$2"), None);
    assert_eq!(parse_pair_thresholds("$5k $7k–$9k"), Some(("7".to_string(), "9".to_string())));
}

#[test]
fn test_pair_thresholds_agree_with_regex() {
    let re = regex::Regex::new(r"\$([0-9]+)k[–-]\$([0-9]+)k").unwrap();
    let alphabet: Vec<char> = "$1k–-2 ".chars().collect();
    let mut x: u64 = 11;
    for _ in 0..20000 {
        x = x.wrapping_mul(6364136223846793005).wrapping_add(1442695040888963407);
        let len = ((x >> 50) % 12) as usize;
        let mut s = String::new();
        let mut y = x;
        for _ in 0..len {
            y = y.wrapping_mul(2862933555777941757).wrapping_add(3037000493);
            s.push(alphabet[((y >> 33) as usize) % alphabet.len()]);
        }
        let expected = re.captures(&s).map(|c| (c[1].to_string(), c[2].to_string()));
        assert_eq!(parse_pair_thresholds(&s), expected, "label {:?}", s);
    }
}

#[test]
fn test_settlement_due() {
    let expiry = "2025-01-08T00:00:00Z";
    let at = UtcInstant { secs: 1_736_294_400, nanos: 0 };
    assert!(settlement_due(expiry, at));
    assert!(settlement_due(expiry, UtcInstant { secs: at.secs + 1, nanos: 0 }));
    assert!(!settlement_due(expiry, UtcInstant { secs: at.secs - 1, nanos: 999_999_999 }));
    assert!(!settlement_due("", at));
    assert!(!settlement_due("2025-01-08", at));
}

#[test]
fn test_subscription_batches() {
    let ids: Vec<String> = (0..120).map(|i| format!("tok{i}")).collect();
    let batches = subscription_batches(&ids);
    assert_eq!(batches.iter().map(|b| b.len()).collect::<Vec<_>>(), vec![50, 50, 20]);
    assert_eq!(batches.concat(), ids);
    assert!(subscription_batches(&vec![]).is_empty());
    assert_eq!(subscription_batches(&ids[..50].to_vec()).len(), 1);
}

#[test]
fn test_parse_timestamp_ms() {
    assert_eq!(parse_timestamp_ms(&TimestampField::Number(Some(1700000000123))), Some(1700000000123));
    assert_eq!(parse_timestamp_ms(&TimestampField::Number(None)), None);
    assert_eq!(parse_timestamp_ms(&TimestampField::Text("1700000000123".to_string())), Some(1700000000123));
    assert_eq!(parse_timestamp_ms(&TimestampField::Text("+5".to_string())), Some(5));
    assert_eq!(parse_timestamp_ms(&TimestampField::Text("-5".to_string())), None);
    assert_eq!(parse_timestamp_ms(&TimestampField::Text("".to_string())), None);
    assert_eq!(parse_timestamp_ms(&TimestampField::Text("+".to_string())), None);
    assert_eq!(parse_timestamp_ms(&TimestampField::Text("18446744073709551616".to_string())), None);
    assert_eq!(parse_timestamp_ms(&TimestampField::Other), None);
}

#[test]
fn test_parse_u64_agrees_with_std() {
    for s in ["0", "007", "+0", "18446744073709551615", "18446744073709551616", "1 ", " 1", "1_0", "٣", "99999999999999999999"] {
        let cs: Vec<char> = s.chars().collect();
        assert_eq!(parse_u64(&cs), s.parse::<u64>().ok(), "{s:?}");
    }
    for n in [0u64, 9, 10, 12345, u64::MAX] {
        let mut out = String::new();
        push_decimal(&mut out, n);
        assert_eq!(out, n.to_string());
        let cs: Vec<char> = out.chars().collect();
        assert_eq!(parse_u64(&cs), Some(n));
    }
}

#[test]
fn test_white_space_matches_std() {
    for c in (0u32..0x11000).filter_map(char::from_u32) {
        assert_eq!(is_white_space(c), c.is_whitespace(), "{:?}", c);
    }
}

#[test]
fn test_text_helpers() {
    assert_eq!(chars_of("añb"), vec!['a', 'ñ', 'b']);
    assert_eq!(string_from_chars(&['x', '–', 'y']), "x–y");
    assert_eq!(trim_chars(&chars_of("\u{a0} a b\t\r")), chars_of("a b"));
    let fields: Vec<String> = split_commas_exec(&chars_of("a,,b,")).iter().map(|f| f.iter().collect()).collect();
    assert_eq!(fields, vec!["a", "", "b", ""]);
    for text in ["", "a", "a\n", "a\r\nb", "a\rb\n\nc", "x\r", "\n\n"] {
        let lines: Vec<String> = split_lines(&chars_of(text)).iter().map(|l| l.iter().collect()).collect();
        let std_lines: Vec<String> = text.lines().map(|l| l.to_string()).collect();
        assert_eq!(lines, std_lines, "{text:?}");
    }
}

#[test]
fn test_csv_loading() {
    let content = "date,open,high,low,close\n2024-01-01,42000,43000,41000,42500\n2024-01-02,42500,44000,42000,43500\n";
    let scan = parse_candle_csv(content);
    assert!(scan.bad_date.is_none());
    assert_eq!(scan.rows.len(), 2);
    let close0: f64 = scan.rows[0].close.parse().unwrap();
    let close1: f64 = scan.rows[1].close.parse().unwrap();
    assert!((close0 - 42500.0).abs() < 0.01);
    assert!((close1 - 43500.0).abs() < 0.01);
    assert_eq!(scan.rows[0].date_secs, 1_704_067_200);
    assert_eq!(scan.rows[1].line, 3);
}

#[test]
fn test_csv_rules() {
    // header only skipped on the first line; short lines and blanks skipped; US dates read
    let content = " \n01/02/2024, 1 ,2,3, 4 \nshort,1\n\n2024-01-03,5,6,7,8,extra";
    let scan = parse_candle_csv(content);
    assert!(scan.bad_date.is_none());
    assert_eq!(scan.rows.len(), 2);
    assert_eq!(scan.rows[0].line, 2);
    assert_eq!(scan.rows[0].date_secs, 1_704_153_600);
    assert_eq!(scan.rows[0].open, "1");
    assert_eq!(scan.rows[0].close, "4");
    assert_eq!(scan.rows[1].line, 5);

    let bad = parse_candle_csv("2024-01-01,1,2,3,4\nDate,1,2,3,4\n2024-01-02,1,2,3,4");
    assert_eq!(bad.rows.len(), 1);
    let e = bad.bad_date.unwrap();
    assert_eq!(e.line, 2);
    assert_eq!(e.text, "Date");
    assert!(!e.cause.to_string().is_empty());
}

#[test]
fn test_scan_decisions() {
    assert_eq!(scan_decision(0, true, true), ScanDecision::NoPairs);
    assert_eq!(scan_decision(3, true, true), ScanDecision::SkippedAi);
    assert_eq!(scan_decision(3, false, true), ScanDecision::Entered);
    assert_eq!(scan_decision(3, false, false), ScanDecision::Scanned);
    assert_eq!(ScanDecision::NoPairs.as_str(), "no_pairs");
    assert_eq!(ScanDecision::SkippedAi.as_str(), "skipped_ai");
    assert_eq!(ScanDecision::Entered.as_str(), "entered");
    assert_eq!(ScanDecision::Scanned.as_str(), "scanned");
}

#[test]
fn test_lcg_draws() {
    let mut g = Lcg::new();
    let mut seed: u64 = 42;
    for n in [1usize, 7, 50, 1000] {
        seed = seed.wrapping_mul(LCG_MULTIPLIER).wrapping_add(LCG_INCREMENT);
        let expected = ((seed >> 33) as usize) % n;
        assert_eq!(g.next_index(n), expected);
        assert_eq!(g.state, seed);
    }
}

#[test]
fn test_system_prompt() {
    let sys = build_system_prompt();
    assert!(sys.contains("risk analyst"));
    assert!(sys.contains("\"skip_trade\": boolean"));
}

#[test]
fn test_clock_and_calendar_range() {
    let now = clock_secs();
    assert!(now > 1_600_000_000);
    assert!(utc_date(0).is_some());
    assert_eq!(utc_date(253_402_300_799), Some((9999, 12, 31, 4)));
    assert_eq!(utc_date(CALENDAR_MIN).map(|d| (d.0, d.1, d.2)), Some((-262_143, 1, 1)));
    assert_eq!(utc_date(CALENDAR_MAX).map(|d| (d.0, d.1, d.2)), Some((262_142, 12, 31)));
    assert!(utc_date(CALENDAR_MIN - 1).is_none());
    assert!(utc_date(CALENDAR_MAX + 1).is_none());
    assert!(utc_date(i64::MAX).is_none());
}

#[test]
fn test_leg_settlement_rules() {
    // LOW wins above the low threshold, HIGH below the high one, other legs inside the range
    assert!(leg_won("LOW", true, false, false));
    assert!(!leg_won("LOW", false, true, true));
    assert!(leg_won("HIGH", false, true, false));
    assert!(!leg_won("HIGH", true, false, true));
    assert!(leg_won("other", false, false, true));
    assert!(!leg_won("other", true, true, false));
}

#[test]
fn test_ws_life_cycle() {
    assert_eq!(ws_step(WsPhase::AwaitTokens, WsEvent::Tokens { empty: true }), (WsPhase::AwaitTokens, WsAction::WaitForTokens));
    assert_eq!(ws_step(WsPhase::AwaitTokens, WsEvent::Tokens { empty: false }), (WsPhase::Connecting, WsAction::Connect));
    assert_eq!(ws_step(WsPhase::Connecting, WsEvent::Connected), (WsPhase::Handshaking, WsAction::SendHandshake));
    assert_eq!(ws_step(WsPhase::Connecting, WsEvent::ConnectFailed), (WsPhase::AwaitTokens, WsAction::Sleep { secs: 5 }));
    assert_eq!(ws_step(WsPhase::Handshaking, WsEvent::Sent), (WsPhase::Subscribing, WsAction::Subscribe));
    assert_eq!(ws_step(WsPhase::Handshaking, WsEvent::SendFailed), (WsPhase::AwaitTokens, WsAction::Sleep { secs: 3 }));
    assert_eq!(ws_step(WsPhase::Subscribing, WsEvent::Sent), (WsPhase::Streaming, WsAction::Listen));
    assert_eq!(ws_step(WsPhase::Subscribing, WsEvent::SendFailed), (WsPhase::AwaitTokens, WsAction::Sleep { secs: 3 }));
    assert_eq!(ws_step(WsPhase::Streaming, WsEvent::Text), (WsPhase::Streaming, WsAction::HandleText));
    assert_eq!(ws_step(WsPhase::Streaming, WsEvent::Ping), (WsPhase::Streaming, WsAction::SendPong));
    assert_eq!(ws_step(WsPhase::Streaming, WsEvent::PingDue), (WsPhase::Streaming, WsAction::SendPing));
    assert_eq!(ws_step(WsPhase::Streaming, WsEvent::TokensChanged), (WsPhase::Streaming, WsAction::Subscribe));
    assert_eq!(ws_step(WsPhase::Streaming, WsEvent::Sent), (WsPhase::Streaming, WsAction::Listen));
    for e in [WsEvent::Close, WsEvent::StreamError, WsEvent::StreamEnded, WsEvent::SendFailed] {
        assert_eq!(ws_step(WsPhase::Streaming, e), (WsPhase::AwaitTokens, WsAction::Sleep { secs: 3 }));
    }
    for p in [WsPhase::AwaitTokens, WsPhase::Connecting, WsPhase::Handshaking, WsPhase::Subscribing, WsPhase::Streaming, WsPhase::Stopped] {
        assert_eq!(ws_step(p, WsEvent::ChannelClosed), (WsPhase::Stopped, WsAction::Stop));
    }
    assert_eq!(ws_step(WsPhase::Stopped, WsEvent::Tokens { empty: false }), (WsPhase::Stopped, WsAction::Stop));
}

#[test]
fn test_scan_loop_steps() {
    let once = ScanLoop { interval: 0, dry_run: true, live: false, ai_available: true };
    assert_eq!(scan_step(&once, ScanEvent::PriceFailed), ScanAction::Fail);
    assert_eq!(scan_step(&once, ScanEvent::PairsFailed), ScanAction::Fail);
    assert_eq!(scan_step(&once, ScanEvent::PriceFetched), ScanAction::RecordPrice { settle: true });
    assert_eq!(scan_step(&once, ScanEvent::PriceRecorded), ScanAction::FindPairs);
    assert_eq!(
        scan_step(&once, ScanEvent::PairsFound { count: 2 }),
        ScanAction::Report { enter_orders: true, assess_risk: true, snapshot: true, publish_tokens: false }
    );
    assert_eq!(
        scan_step(&once, ScanEvent::PairsFound { count: 0 }),
        ScanAction::Report { enter_orders: true, assess_risk: false, snapshot: true, publish_tokens: false }
    );
    assert_eq!(scan_step(&once, ScanEvent::CycleRecorded), ScanAction::Stop);

    let every = ScanLoop { interval: 300, dry_run: false, live: true, ai_available: false };
    assert_eq!(scan_step(&every, ScanEvent::PriceFailed), ScanAction::SleepAndRetry { secs: 300 });
    assert_eq!(scan_step(&every, ScanEvent::PairsFailed), ScanAction::SleepAndRetry { secs: 300 });
    assert_eq!(scan_step(&every, ScanEvent::PriceFetched), ScanAction::RecordPrice { settle: false });
    assert_eq!(
        scan_step(&every, ScanEvent::PairsFound { count: 3 }),
        ScanAction::Report { enter_orders: false, assess_risk: false, snapshot: false, publish_tokens: true }
    );
    assert_eq!(scan_step(&every, ScanEvent::CycleRecorded), ScanAction::SleepAndScan { secs: 300 });
}

/// The calendar arithmetic stated for `utc_date`, written out for comparison with chrono.
fn civil(secs: i64) -> (i32, u32, u32, u32) {
    let z0 = secs.div_euclid(86_400);
    let z = z0 + 719_468;
    let era = z.div_euclid(146_097);
    let doe = z - era * 146_097;
    let yoe = (doe - doe / 1460 + doe / 36_524 - doe / 146_096) / 365;
    let doy = doe - (365 * yoe + yoe / 4 - yoe / 100);
    let mp = (5 * doy + 2) / 153;
    let d = doy - (153 * mp + 2) / 5 + 1;
    let m = if mp < 10 { mp + 3 } else { mp - 9 };
    let y = yoe + era * 400 + if m <= 2 { 1 } else { 0 };
    (y as i32, m as u32, d as u32, (z0 + 3).rem_euclid(7) as u32)
}

#[test]
fn test_utc_date_follows_civil_arithmetic() {
    let mut secs: i64 = -8_000_000_000_000;
    while secs < 8_000_000_000_000 {
        assert_eq!(utc_date(secs), Some(civil(secs)), "at {secs}");
        secs += 7_777_777_777;
    }
    for s in [0, -1, 86_399, 86_400, 951_782_400, 1_709_164_800, 4_107_542_400, 253_402_300_799, CALENDAR_MIN, CALENDAR_MAX] {
        assert_eq!(utc_date(s), Some(civil(s)), "at {s}");
    }
    assert_eq!(civil(1_709_164_800), (2024, 2, 29, 3));
}

#[test]
fn test_whole_days_follow_the_difference() {
    let trunc = |x: i128, d: i128| if x >= 0 { x / d } else { -((-x) / d) };
    let stamps: Vec<UtcInstant> = [
        (0, 0),
        (86_399, 999_999_999),
        (86_400, 0),
        (1_709_164_800, 500),
        (1_709_164_799, 999_999_999),
        (1_709_251_199, 1),
        (4_107_542_400, 123_456_789),
    ]
    .iter()
    .map(|&(secs, nanos)| UtcInstant { secs, nanos })
    .collect();
    for a in &stamps {
        for b in &stamps {
            let diff = (a.secs as i128 - b.secs as i128) * 1_000_000_000 + (a.nanos as i128 - b.nanos as i128);
            let expected = trunc(trunc(diff, 1_000_000_000), 86_400) as i64;
            assert_eq!(whole_days_between(*a, *b), Some(expected));
        }
    }
}
