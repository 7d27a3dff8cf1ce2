use chrono::Datelike;
use polydelta::calendar::{UtcInstant, CALENDAR_MAX};
use polydelta::scanner::{
    check_slugs, event_slug, event_slugs_for_timeframe, event_slugs_from, generate_btc_event_slugs,
    market_candidate, market_url, month_name, pair_legs, parse_end_date, parse_threshold,
    same_expiry_pairs, token_ids_of, IdListField, MarketText, ScanError,
};

/// The threshold reading written as the two `regex` patterns of the question grammar, for
/// comparison.
fn threshold_by_regex(res: &[regex::Regex], question: &str) -> Option<f64> {
    for re in res {
        if let Some(cap) = re.captures(question) {
            if let Ok(val) = cap[1].replace(',', "").parse::<f64>() {
                return Some(val);
            }
        }
    }
    None
}

fn threshold_regexes() -> Vec<regex::Regex> {
    vec![
        regex::Regex::new(r"\$([0-9,]+(?:\.[0-9]+)?)").unwrap(),
        regex::Regex::new(r"([0-9,]+(?:\.[0-9]+)?)\s*(?:USD|dollars?)").unwrap(),
    ]
}

fn threshold_value(question: &str) -> Option<f64> {
    parse_threshold(question).map(|t| t.parse::<f64>().expect("threshold text is a number"))
}

#[test]
fn test_month_names() {
    let names = [
        "january", "february", "march", "april", "may", "june", "july", "august", "september",
        "october", "november", "december",
    ];
    for (i, n) in names.iter().enumerate() {
        assert_eq!(month_name(i as u32 + 1), *n);
    }
    assert_eq!(month_name(0), "december");
    assert_eq!(month_name(13), "december");
}

#[test]
fn test_event_slug_format() {
    assert_eq!(event_slug(3, 7), "bitcoin-above-on-march-7");
    assert_eq!(event_slug(12, 31), "bitcoin-above-on-december-31");
    assert_eq!(event_slug(1, 10), "bitcoin-above-on-january-10");
}

#[test]
fn test_event_slugs_from_fixed_clock() {
    // 2024-02-27 12:00:00 UTC, across the leap day
    let now = 1_709_035_200;
    let slugs = event_slugs_from(now, 4);
    assert_eq!(
        slugs,
        vec![
            "bitcoin-above-on-february-27",
            "bitcoin-above-on-february-28",
            "bitcoin-above-on-february-29",
            "bitcoin-above-on-march-1",
        ]
    );
    assert!(event_slugs_from(now, 0).is_empty());
}

#[test]
fn test_event_slugs_per_timeframe() {
    assert_eq!(event_slugs_for_timeframe("week").len(), 7);
    assert_eq!(event_slugs_for_timeframe("month").len(), 30);
    assert_eq!(event_slugs_for_timeframe("anything").len(), 30);
    assert_eq!(generate_btc_event_slugs(3).len(), 3);
    let today = chrono::Utc::now();
    let first = &event_slugs_for_timeframe("week")[0];
    assert!(first.starts_with("bitcoin-above-on-"));
    assert!(first.ends_with(&format!("-{}", today.day())));
}

#[test]
fn test_parse_threshold_examples() {
    assert_eq!(threshold_value("Will Bitcoin be above $64,000 on March 7?"), Some(64000.0));
    assert_eq!(threshold_value("Bitcoin above $70,500.50?"), Some(70500.5));
    assert_eq!(threshold_value("Bitcoin above 72,000 USD on Friday?"), Some(72000.0));
    assert_eq!(threshold_value("above 68000 dollars"), Some(68000.0));
    assert_eq!(threshold_value("above 68000\u{a0}dollar"), Some(68000.0));
    assert_eq!(threshold_value("no number here"), None);
    assert_eq!(threshold_value("$, then 5 USD"), Some(5.0));
    assert_eq!(threshold_value("price 1.5.3 USD"), Some(5.3));
    assert_eq!(parse_threshold("$1,2,3").as_deref(), Some("123"));
}

#[test]
fn test_parse_threshold_agrees_with_regex() {
    let res = threshold_regexes();
    let alphabet: Vec<char> = "$12,. USDdolarsx\u{a0}\t7".chars().collect();
    let mut seed: u64 = 7;
    for _ in 0..20000 {
        seed = seed.wrapping_mul(6364136223846793005).wrapping_add(1);
        let len = ((seed >> 40) % 12) as usize;
        let mut s = String::new();
        let mut x = seed;
        for _ in 0..len {
            x = x.wrapping_mul(2862933555777941757).wrapping_add(3037000493);
            s.push(alphabet[((x >> 33) as usize) % alphabet.len()]);
        }
        assert_eq!(threshold_value(&s), threshold_by_regex(&res, &s), "question {:?}", s);
    }
}

#[test]
fn test_parse_end_date_forms() {
    let t = parse_end_date("2025-03-07T12:00:00Z").unwrap();
    assert_eq!(t, UtcInstant { secs: 1_741_348_800, nanos: 0 });
    let t = parse_end_date("2025-03-07T12:00:00.5Z").unwrap();
    assert_eq!(t, UtcInstant { secs: 1_741_348_800, nanos: 500_000_000 });
    assert_eq!(parse_end_date("2025-03-07 12:00:00").unwrap().secs, 1_741_348_800);
    assert_eq!(parse_end_date("2025-03-07").unwrap().secs, 1_741_305_600);
    assert_eq!(parse_end_date("2025-03-07ZZ").unwrap().secs, 1_741_305_600);
    assert_eq!(parse_end_date("not a date"), None);
    assert_eq!(parse_end_date(""), None);
}

#[test]
fn test_same_expiry_pairs() {
    let day = 86_400;
    let lows = vec![
        UtcInstant { secs: 10 * day, nanos: 0 },
        UtcInstant { secs: 11 * day, nanos: 0 },
    ];
    let highs = vec![
        UtcInstant { secs: 10 * day + 3600, nanos: 0 },
        UtcInstant { secs: 12 * day, nanos: 0 },
        UtcInstant { secs: 11 * day - 1, nanos: 0 },
    ];
    // 11d-1s is less than a whole day from both 10d and 11d; 11d is 23h after 10d+1h
    assert_eq!(same_expiry_pairs(&lows, &highs), vec![(0, 0), (0, 2), (1, 0), (1, 2)]);
    assert_eq!(pair_legs(&lows, &highs), Ok(vec![(0, 0), (0, 2), (1, 0), (1, 2)]));
    assert_eq!(pair_legs(&lows, &vec![]), Err(ScanError::InsufficientMarkets { low: 2, high: 0 }));
    assert_eq!(pair_legs(&vec![], &highs), Err(ScanError::InsufficientMarkets { low: 0, high: 3 }));
}

#[test]
fn test_check_slugs() {
    assert_eq!(check_slugs(&vec![]), Err(ScanError::NoSlugs));
    assert_eq!(check_slugs(&vec!["a".to_string()]), Ok(()));
}

#[test]
fn test_market_url_has_no_referral() {
    assert_eq!(
        market_url("bitcoin-above-on-march-7"),
        "https://polymarket.com/event/bitcoin-above-on-march-7"
    );
}

#[test]
fn test_market_candidate() {
    let m = MarketText {
        question: None,
        title: Some("Bitcoin above $64,000 on March 7?".to_string()),
        end_date: None,
        end_date_iso: Some("2025-03-07".to_string()),
    };
    let ids = vec!["yes1".to_string(), "no1".to_string()];
    let c = market_candidate(&m, &Some("2025-04-01".to_string()), &ids).unwrap();
    assert_eq!(c.question, "Bitcoin above $64,000 on March 7?");
    assert_eq!(c.threshold_text, "64000");
    assert_eq!(c.end_date.secs, 1_741_305_600);
    assert_eq!(c.yes_token_id, "yes1");
    assert_eq!(c.no_token_id.as_deref(), Some("no1"));

    let empty_id = vec!["".to_string()];
    assert!(market_candidate(&m, &None, &empty_id).is_none());
    let no_date = MarketText { end_date_iso: None, ..m };
    assert!(market_candidate(&no_date, &None, &ids).is_none());
    let c = market_candidate(&no_date, &Some("2025-04-01T00:00:00Z".to_string()), &ids).unwrap();
    assert_eq!(c.end_date.secs, 1_743_465_600);
    let no_question = MarketText { question: Some("Bitcoin up?".to_string()), ..no_date };
    assert!(market_candidate(&no_question, &Some("2025-04-01".to_string()), &ids).is_none());
}

#[test]
fn test_token_ids_of() {
    let arr = IdListField::Array(vec![Some("a".to_string()), None, Some("b".to_string())]);
    assert_eq!(token_ids_of(&arr), vec!["a".to_string(), "b".to_string()]);
    let text = IdListField::Text("[\"111\", \"222\"]".to_string());
    assert_eq!(token_ids_of(&text), vec!["111".to_string(), "222".to_string()]);
    assert!(token_ids_of(&IdListField::Text("not json".to_string())).is_empty());
    assert!(token_ids_of(&IdListField::Text("[1, 2]".to_string())).is_empty());
    assert!(token_ids_of(&IdListField::Other).is_empty());
}

#[test]
fn test_pairs_listed_once() {
    let day = 86_400;
    let lows = vec![UtcInstant { secs: 10 * day, nanos: 0 }, UtcInstant { secs: 10 * day + 5, nanos: 0 }];
    let highs = vec![UtcInstant { secs: 10 * day + 60, nanos: 0 }, UtcInstant { secs: 12 * day, nanos: 0 }];
    let pairs = same_expiry_pairs(&lows, &highs);
    assert_eq!(pairs, vec![(0, 0), (1, 0)]);
    assert!(pairs.windows(2).all(|w| w[0] < w[1]));
}

#[test]
fn test_event_slugs_before_the_epoch_and_at_the_calendar_end() {
    // 1969-12-22 00:00:00 UTC
    let slugs = event_slugs_from(-10 * 86_400, 3);
    assert_eq!(
        slugs,
        vec![
            "bitcoin-above-on-december-22".to_string(),
            "bitcoin-above-on-december-23".to_string(),
            "bitcoin-above-on-december-24".to_string(),
        ]
    );
    // only the calendar's last day has a date
    assert_eq!(event_slugs_from(CALENDAR_MAX, 3), vec!["bitcoin-above-on-december-31".to_string()]);
    assert!(generate_btc_event_slugs(0).is_empty());
}
