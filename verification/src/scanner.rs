//! Market discovery: event slugs, threshold and expiry parsing, pairing of the two legs.
use vstd::prelude::*;

use crate::calendar::{
    naive_date_spec, naive_datetime_spec, parse_naive_date, parse_naive_datetime, parse_rfc3339,
    rfc3339_spec, utc_date, whole_days_between, whole_days_between_spec, utc_date_spec, clock_secs, UtcInstant, CALENDAR_MAX, CALENDAR_MIN, civil_from_days, plain_instant, trunc_div, whole_days_formula,
};
use crate::text::{
    chars_of, decimal, is_ascii_digit, is_white_space, is_white_space_spec, lemma_decimal_digits,
    push_char, push_decimal,
};

verus! {

/// English month name, lower case; every number outside 1..=11 is December.
pub open spec fn month_name_spec(month: u32) -> Seq<char> {
    if month == 1 {
        "january"@
    } else if month == 2 {
        "february"@
    } else if month == 3 {
        "march"@
    } else if month == 4 {
        "april"@
    } else if month == 5 {
        "may"@
    } else if month == 6 {
        "june"@
    } else if month == 7 {
        "july"@
    } else if month == 8 {
        "august"@
    } else if month == 9 {
        "september"@
    } else if month == 10 {
        "october"@
    } else if month == 11 {
        "november"@
    } else {
        "december"@
    }
}

/// Lower-case English name of `month` (1 = January).
pub fn month_name(month: u32) -> (name: &'static str)
    ensures
        name@ == month_name_spec(month),
{
    match month {
        1 => "january",
        2 => "february",
        3 => "march",
        4 => "april",
        5 => "may",
        6 => "june",
        7 => "july",
        8 => "august",
        9 => "september",
        10 => "october",
        11 => "november",
        _ => "december",
    }
}

/// Event slug of the daily "Bitcoin above ... on {month} {day}" market.
pub open spec fn event_slug_spec(month: u32, day: u32) -> Seq<char> {
    "bitcoin-above-on-"@ + month_name_spec(month) + "-"@ + decimal(day as nat)
}

/// Slug of the daily event on the calendar date of `month` and `day`.
pub fn event_slug(month: u32, day: u32) -> (slug: String)
    ensures
        slug@ == event_slug_spec(month, day),
{
    let mut s = String::from_str("bitcoin-above-on-");
    s.append(month_name(month));
    s.append("-");
    push_decimal(&mut s, day as u64);
    s
}

/// The instant `days` whole days after `now_secs`, where it fits in an `i64`.
pub open spec fn shifted_secs(now_secs: i64, days: nat) -> Option<i64> {
    let t = now_secs + days * 86400;
    if i64::MIN <= t <= i64::MAX {
        Some(t as i64)
    } else {
        None
    }
}

/// Slug of the day `i` days after `now_secs`, if that day is in chrono's calendar range.
pub open spec fn slug_of_day(now_secs: i64, i: nat) -> Option<Seq<char>> {
    match shifted_secs(now_secs, i) {
        Some(t) => match utc_date_spec(t) {
            Some((y, m, d, w)) => Some(event_slug_spec(m, d)),
            None => None,
        },
        None => None,
    }
}

/// Slugs of the first `n` days starting at `now_secs`, in date order.
pub open spec fn event_slugs_spec(now_secs: i64, n: nat) -> Seq<Seq<char>>
    decreases n,
{
    if n == 0 {
        seq![]
    } else {
        let prev = event_slugs_spec(now_secs, (n - 1) as nat);
        match slug_of_day(now_secs, (n - 1) as nat) {
            Some(s) => prev.push(s),
            None => prev,
        }
    }
}

pub open spec fn strings_view(v: Seq<String>) -> Seq<Seq<char>> {
    v.map_values(|s: String| s@)
}

/// The first `n` days from `now_secs` all lie in chrono's calendar ([`CALENDAR_MIN`] to
/// [`CALENDAR_MAX`]), where every instant has a date.
pub open spec fn days_in_calendar(now_secs: i64, n: nat) -> bool {
    CALENDAR_MIN <= now_secs && now_secs + n * 86400 <= CALENDAR_MAX
}

/// Slug of the calendar day `i` days after the instant `now_secs`, by the Gregorian
/// calendar.
pub open spec fn civil_slug(now_secs: i64, i: nat) -> Seq<char> {
    let (y, m, d) = civil_from_days((now_secs + i * 86400) / 86400);
    event_slug_spec(m as u32, d as u32)
}

/// Slugs `bitcoin-above-on-{month}-{day}` of the `days_ahead` days starting at the
/// instant `now_secs`. A day beyond chrono's calendar range has no slug; when all the days
/// lie in the calendar there is one slug per day, the `i`-th naming the Gregorian date `i`
/// days after `now_secs`; when `now_secs` itself is in the calendar there is at least one.
pub fn event_slugs_from(now_secs: i64, days_ahead: u32) -> (slugs: Vec<String>)
    ensures
        strings_view(slugs@) == event_slugs_spec(now_secs, days_ahead as nat),
        days_ahead > 0 && CALENDAR_MIN <= now_secs <= CALENDAR_MAX ==> slugs@.len() > 0,
        days_in_calendar(now_secs, days_ahead as nat) ==> slugs@.len() == days_ahead && forall|
            i: int,
        |
            0 <= i < days_ahead ==> Some(#[trigger] strings_view(slugs@)[i]) == slug_of_day(
                now_secs,
                i as nat,
            ) && strings_view(slugs@)[i] == civil_slug(now_secs, i as nat),
{
    let mut slugs: Vec<String> = Vec::new();
    let mut i: u32 = 0;
    while i < days_ahead
        invariant
            i <= days_ahead,
            strings_view(slugs@) == event_slugs_spec(now_secs, i as nat),
            i > 0 && CALENDAR_MIN <= now_secs <= CALENDAR_MAX ==> slugs@.len() > 0,
            days_in_calendar(now_secs, days_ahead as nat) ==> slugs@.len() == i && forall|k: int|
                0 <= k < i ==> Some(#[trigger] strings_view(slugs@)[k]) == slug_of_day(
                    now_secs,
                    k as nat,
                ) && strings_view(slugs@)[k] == civil_slug(now_secs, k as nat),
        decreases days_ahead - i,
    {
        let offset: i64 = (i as i64) * 86400;
        let shifted: Option<i64> = now_secs.checked_add(offset);
        let ghost prev = slugs@;
        match shifted {
            Some(t) => {
                match utc_date(t) {
                    Some((_y, m, d, _w)) => {
                        let slug = event_slug(m, d);
                        slugs.push(slug);
                        assert(strings_view(slugs@) == strings_view(prev).push(slug@));
                    },
                    None => {},
                }
            },
            None => {},
        }
        i += 1;
    }
    slugs
}

/// Slugs of the next `days_ahead` days, starting at the system clock's reading (an
/// instant of chrono's calendar): one per day, the `i`-th naming the Gregorian date `i`
/// days after the reading, for every day that lies in the calendar. There is at least one
/// slug whenever one is asked for.
pub fn generate_btc_event_slugs(days_ahead: u32) -> (slugs: Vec<String>)
    ensures
        exists|now: i64|
            CALENDAR_MIN <= now <= CALENDAR_MAX && strings_view(slugs@) == event_slugs_spec(
                now,
                days_ahead as nat,
            ) && (days_in_calendar(now, days_ahead as nat) ==> slugs@.len() == days_ahead
                && forall|i: int|
                0 <= i < days_ahead ==> #[trigger] strings_view(slugs@)[i] == civil_slug(
                    now,
                    i as nat,
                )),
        days_ahead > 0 ==> slugs@.len() > 0,
{
    let now = clock_secs();
    let slugs = event_slugs_from(now, days_ahead);
    assert(strings_view(slugs@) == event_slugs_spec(now, days_ahead as nat));
    slugs
}

/// Number of days scanned for a timeframe: a week for `"week"`, otherwise 30 days.
pub open spec fn timeframe_days(timeframe: Seq<char>) -> nat {
    if timeframe == "week"@ {
        7
    } else {
        30
    }
}

/// Event slugs scanned for `timeframe` (`"week"`: 7 days, anything else: 30 days), from
/// the system clock's reading: one per day of the calendar, at least one.
pub fn event_slugs_for_timeframe(timeframe: &str) -> (slugs: Vec<String>)
    ensures
        exists|now: i64|
            CALENDAR_MIN <= now <= CALENDAR_MAX && strings_view(slugs@) == event_slugs_spec(
                now,
                timeframe_days(timeframe@),
            ) && (days_in_calendar(now, timeframe_days(timeframe@)) ==> slugs@.len()
                == timeframe_days(timeframe@) && forall|i: int|
                0 <= i < timeframe_days(timeframe@) ==> #[trigger] strings_view(slugs@)[i]
                    == civil_slug(now, i as nat)),
        slugs@.len() > 0,
{
    let week = String::from_str("week");
    let given = String::from_str(timeframe);
    let days: u32 = if given == week {
        7
    } else {
        30
    };
    assert(days as nat == timeframe_days(timeframe@));
    generate_btc_event_slugs(days)
}

// ── Threshold in a market question ──────────────────────────────────────────────

pub open spec fn is_num_char(c: char) -> bool {
    is_ascii_digit(c) || c == ','
}

/// End of the longest run of digits and commas starting at `i`.
pub open spec fn num_run_end(s: Seq<char>, i: int) -> int
    decreases s.len() - i,
{
    if 0 <= i < s.len() && is_num_char(s[i]) {
        num_run_end(s, i + 1)
    } else {
        i
    }
}

/// End of the longest run of ASCII digits starting at `i`.
pub open spec fn digit_run_end(s: Seq<char>, i: int) -> int
    decreases s.len() - i,
{
    if 0 <= i < s.len() && is_ascii_digit(s[i]) {
        digit_run_end(s, i + 1)
    } else {
        i
    }
}

/// End of the longest run of white space starting at `i`.
pub open spec fn space_run_end(s: Seq<char>, i: int) -> int
    decreases s.len() - i,
{
    if 0 <= i < s.len() && is_white_space_spec(s[i]) {
        space_run_end(s, i + 1)
    } else {
        i
    }
}

/// End of the number `[0-9,]+(\.[0-9]+)?` that starts at `i`, taken greedily.
pub open spec fn number_end(s: Seq<char>, i: int) -> int {
    let r = num_run_end(s, i);
    if r < s.len() && s.len() - r > 1 && s[r] == '.' && is_ascii_digit(s[r + 1]) {
        digit_run_end(s, r + 1)
    } else {
        r
    }
}

/// `USD` or `dollar` begins at `q`.
pub open spec fn currency_word_at(s: Seq<char>, q: int) -> bool {
    ||| (0 <= q && q + 3 <= s.len() && s[q] == 'U' && s[q + 1] == 'S' && s[q + 2] == 'D')
    ||| (0 <= q && q + 6 <= s.len() && s[q] == 'd' && s[q + 1] == 'o' && s[q + 2] == 'l' && s[q
        + 3] == 'l' && s[q + 4] == 'a' && s[q + 5] == 'r')
}

/// `\$([0-9,]+(?:\.[0-9]+)?)` matches at `i`.
pub open spec fn dollar_match_at(s: Seq<char>, i: int) -> bool {
    0 <= i && i + 1 < s.len() && s[i] == '$' && is_num_char(s[i + 1])
}

/// `([0-9,]+(?:\.[0-9]+)?)\s*(?:USD|dollars?)` matches at `i`.
pub open spec fn currency_match_at(s: Seq<char>, i: int) -> bool {
    0 <= i < s.len() && is_num_char(s[i]) && currency_word_at(
        s,
        space_run_end(s, number_end(s, i)),
    )
}

/// Leftmost start at or after `i` where the `$` pattern matches.
pub open spec fn first_dollar_match(s: Seq<char>, i: int) -> Option<int>
    decreases s.len() - i,
{
    if i < 0 || i >= s.len() {
        None
    } else if dollar_match_at(s, i) {
        Some(i)
    } else {
        first_dollar_match(s, i + 1)
    }
}

/// Leftmost start at or after `i` where the currency-word pattern matches.
pub open spec fn first_currency_match(s: Seq<char>, i: int) -> Option<int>
    decreases s.len() - i,
{
    if i < 0 || i >= s.len() {
        None
    } else if currency_match_at(s, i) {
        Some(i)
    } else {
        first_currency_match(s, i + 1)
    }
}

/// `t` with every comma removed.
pub open spec fn strip_commas(t: Seq<char>) -> Seq<char>
    decreases t.len(),
{
    if t.len() == 0 {
        seq![]
    } else {
        let p = strip_commas(t.drop_last());
        if t.last() == ',' {
            p
        } else {
            p.push(t.last())
        }
    }
}

/// Number text (commas removed) that the question's threshold is read from: the number
/// after the first `$`, or else the first number followed by `USD`/`dollar(s)`. A candidate
/// made of commas alone is no number.
pub open spec fn threshold_text_spec(s: Seq<char>) -> Option<Seq<char>> {
    let first = match first_dollar_match(s, 0) {
        Some(i) => strip_commas(s.subrange(i + 1, number_end(s, i + 1))),
        None => seq![],
    };
    if first.len() > 0 {
        Some(first)
    } else {
        match first_currency_match(s, 0) {
            Some(i) => {
                let t = strip_commas(s.subrange(i, number_end(s, i)));
                if t.len() > 0 {
                    Some(t)
                } else {
                    None
                }
            },
            None => None,
        }
    }
}

fn is_num_char_exec(c: char) -> (b: bool)
    ensures
        b == is_num_char(c),
        b <==> ('0' <= c && c <= '9') || c == ',',
{
    ('0' <= c && c <= '9') || c == ','
}

fn num_run_end_exec(s: &Vec<char>, i: usize) -> (r: usize)
    requires
        i <= s@.len(),
    ensures
        r as int == num_run_end(s@, i as int),
        i <= r <= s@.len(),
{
    let mut j = i;
    while j < s.len() && is_num_char_exec(s[j])
        invariant
            i <= j <= s@.len(),
            num_run_end(s@, i as int) == num_run_end(s@, j as int),
        decreases s@.len() - j,
    {
        j += 1;
    }
    j
}

fn digit_run_end_exec(s: &Vec<char>, i: usize) -> (r: usize)
    requires
        i <= s@.len(),
    ensures
        r as int == digit_run_end(s@, i as int),
        i <= r <= s@.len(),
{
    let mut j = i;
    while j < s.len() && ('0' <= s[j] && s[j] <= '9')
        invariant
            i <= j <= s@.len(),
            digit_run_end(s@, i as int) == digit_run_end(s@, j as int),
        decreases s@.len() - j,
    {
        j += 1;
    }
    j
}

fn space_run_end_exec(s: &Vec<char>, i: usize) -> (r: usize)
    requires
        i <= s@.len(),
    ensures
        r as int == space_run_end(s@, i as int),
        i <= r <= s@.len(),
{
    let mut j = i;
    while j < s.len() && is_white_space(s[j])
        invariant
            i <= j <= s@.len(),
            space_run_end(s@, i as int) == space_run_end(s@, j as int),
        decreases s@.len() - j,
    {
        j += 1;
    }
    j
}

fn number_end_exec(s: &Vec<char>, i: usize) -> (r: usize)
    requires
        i <= s@.len(),
    ensures
        r as int == number_end(s@, i as int),
        i <= r <= s@.len(),
{
    let r = num_run_end_exec(s, i);
    if r < s.len() && s.len() - r > 1 && s[r] == '.' && '0' <= s[r + 1] && s[r + 1] <= '9' {
        digit_run_end_exec(s, r + 1)
    } else {
        r
    }
}

fn currency_word_at_exec(s: &Vec<char>, q: usize) -> (b: bool)
    ensures
        b == currency_word_at(s@, q as int),
{
    (q <= s.len() && s.len() - q >= 3 && s[q] == 'U' && s[q + 1] == 'S' && s[q + 2] == 'D') || (q <= s.len()
        && s.len() - q >= 6 && s[q] == 'd' && s[q + 1] == 'o' && s[q + 2] == 'l' && s[q + 3] == 'l' && s[q + 4] == 'a'
        && s[q + 5] == 'r')
}

fn first_dollar_match_exec(s: &Vec<char>) -> (r: Option<usize>)
    ensures
        r matches Some(i) ==> first_dollar_match(s@, 0) == Some(i as int) && i + 1 < s@.len(),
        r is None ==> first_dollar_match(s@, 0) is None,
{
    let mut i: usize = 0;
    while i < s.len()
        invariant
            i <= s@.len(),
            first_dollar_match(s@, 0) == first_dollar_match(s@, i as int),
        decreases s@.len() - i,
    {
        if i + 1 < s.len() && s[i] == '$' && is_num_char_exec(s[i + 1]) {
            return Some(i);
        }
        i += 1;
    }
    None
}

fn first_currency_match_exec(s: &Vec<char>) -> (r: Option<usize>)
    ensures
        r matches Some(i) ==> first_currency_match(s@, 0) == Some(i as int) && i < s@.len(),
        r is None ==> first_currency_match(s@, 0) is None,
{
    let mut i: usize = 0;
    while i < s.len()
        invariant
            i <= s@.len(),
            first_currency_match(s@, 0) == first_currency_match(s@, i as int),
        decreases s@.len() - i,
    {
        if is_num_char_exec(s[i]) {
            let e = number_end_exec(s, i);
            let q = space_run_end_exec(s, e);
            if currency_word_at_exec(s, q) {
                return Some(i);
            }
        }
        i += 1;
    }
    None
}

/// The characters of `s[from..to]` with the commas left out.
fn strip_commas_exec(s: &Vec<char>, from: usize, to: usize) -> (t: Vec<char>)
    requires
        from <= to <= s@.len(),
    ensures
        t@ == strip_commas(s@.subrange(from as int, to as int)),
{
    let mut t: Vec<char> = Vec::new();
    let mut j = from;
    while j < to
        invariant
            from <= j <= to <= s@.len(),
            t@ == strip_commas(s@.subrange(from as int, j as int)),
        decreases to - j,
    {
        let ghost next = s@.subrange(from as int, j + 1);
        assert(next.drop_last() == s@.subrange(from as int, j as int));
        if s[j] != ',' {
            t.push(s[j]);
        }
        j += 1;
    }
    t
}

/// Number text of the price threshold stated in a market question ("... above $64,000?",
/// "... 70,000 USD"), commas removed. `None` when the question states no threshold.
pub fn parse_threshold(question: &str) -> (r: Option<String>)
    ensures
        r is Some <==> threshold_text_spec(question@) is Some,
        r matches Some(t) ==> Some(t@) == threshold_text_spec(question@),
{
    let s = chars_of(question);
    let first: Vec<char> = match first_dollar_match_exec(&s) {
        Some(i) => {
            let e = number_end_exec(&s, i + 1);
            strip_commas_exec(&s, i + 1, e)
        },
        None => Vec::new(),
    };
    if first.len() > 0 {
        return Some(string_from_vec(&first));
    }
    match first_currency_match_exec(&s) {
        Some(i) => {
            let e = number_end_exec(&s, i);
            let t = strip_commas_exec(&s, i, e);
            if t.len() > 0 {
                Some(string_from_vec(&t))
            } else {
                None
            }
        },
        None => None,
    }
}

fn string_from_vec(v: &Vec<char>) -> (s: String)
    ensures
        s@ == v@,
{
    crate::text::string_from_chars(v.as_slice())
}

// ── Expiry date of a market ──────────────────────────────────────────────────────

/// `s` with every trailing `Z` removed.
pub open spec fn trim_trailing_z(s: Seq<char>) -> Seq<char>
    decreases s.len(),
{
    if s.len() > 0 && s.last() == 'Z' {
        trim_trailing_z(s.drop_last())
    } else {
        s
    }
}

/// `t` read with the date-time format `fmt`, else with `fmt` as a date at midnight.
pub open spec fn date_with_format(t: Seq<char>, fmt: Seq<char>) -> Option<UtcInstant> {
    match naive_datetime_spec(t, fmt) {
        Some(i) => Some(i),
        None => match naive_date_spec(t, fmt) {
            Some(secs) => Some(UtcInstant { secs, nanos: 0 }),
            None => None,
        },
    }
}

/// Expiry instant written in `s`: RFC 3339 with the offset `+00:00` appended (after trailing
/// `Z`s are removed), else `%Y-%m-%dT%H:%M:%S`, `%Y-%m-%d %H:%M:%S`, `%Y-%m-%d` in turn.
pub open spec fn end_date_spec(s: Seq<char>) -> Option<UtcInstant> {
    let t = trim_trailing_z(s);
    match rfc3339_spec(t + "+00:00"@) {
        Some(i) => Some(i),
        None => match date_with_format(t, "%Y-%m-%dT%H:%M:%S"@) {
            Some(i) => Some(i),
            None => match date_with_format(t, "%Y-%m-%d %H:%M:%S"@) {
                Some(i) => Some(i),
                None => date_with_format(t, "%Y-%m-%d"@),
            },
        },
    }
}

fn try_date_format(t: &str, fmt: &str) -> (r: Option<UtcInstant>)
    ensures
        r == date_with_format(t@, fmt@),
{
    match parse_naive_datetime(t, fmt) {
        Some(i) => Some(i),
        None => match parse_naive_date(t, fmt) {
            Ok(secs) => Some(UtcInstant { secs, nanos: 0 }),
            Err(_) => None,
        },
    }
}

/// Expiry date of a market from the date text of the exchange's API.
pub fn parse_end_date(s: &str) -> (r: Option<UtcInstant>)
    ensures
        r == end_date_spec(s@),
{
    let cs = chars_of(s);
    let mut n = cs.len();
    assert(cs@.take(n as int) == cs@);
    while n > 0 && cs[n - 1] == 'Z'
        invariant
            n <= cs@.len(),
            trim_trailing_z(cs@) == trim_trailing_z(cs@.take(n as int)),
        decreases n,
    {
        assert(cs@.take(n as int).drop_last() == cs@.take(n - 1));
        n -= 1;
    }
    assert(trim_trailing_z(cs@.take(n as int)) == cs@.take(n as int));
    let trimmed = crate::text::string_from_range(cs.as_slice(), 0, n);
    assert(cs@.subrange(0, n as int) == cs@.take(n as int));
    let mut with_offset = trimmed.clone();
    with_offset.append("+00:00");
    if let Some(i) = parse_rfc3339(with_offset.as_str()) {
        return Some(i);
    }
    if let Some(i) = try_date_format(trimmed.as_str(), "%Y-%m-%dT%H:%M:%S") {
        return Some(i);
    }
    if let Some(i) = try_date_format(trimmed.as_str(), "%Y-%m-%d %H:%M:%S") {
        return Some(i);
    }
    try_date_format(trimmed.as_str(), "%Y-%m-%d")
}

// ── Pairing the two legs ─────────────────────────────────────────────────────────

/// The low market ending at `a` and the high market ending at `b` expire on the same day:
/// fewer than one whole day lies between their end dates.
pub open spec fn same_expiry(a: UtcInstant, b: UtcInstant) -> bool {
    whole_days_between_spec(a, b) == Some(0i64)
}

/// Pairs `(i, j)`, `j < m`, of the low market `i` with a high market of the same expiry.
pub open spec fn row_pairs(lows: Seq<UtcInstant>, highs: Seq<UtcInstant>, i: int, m: int) -> Seq<
    (usize, usize),
>
    decreases m,
{
    if m <= 0 {
        seq![]
    } else {
        let p = row_pairs(lows, highs, i, m - 1);
        if same_expiry(lows[i], highs[m - 1]) {
            p.push((i as usize, (m - 1) as usize))
        } else {
            p
        }
    }
}

/// All same-expiry pairs of the first `n` low markets, by low market, then by high market.
pub open spec fn expiry_pairs_spec(lows: Seq<UtcInstant>, highs: Seq<UtcInstant>, n: int) -> Seq<
    (usize, usize),
>
    decreases n,
{
    if n <= 0 {
        seq![]
    } else {
        expiry_pairs_spec(lows, highs, n - 1) + row_pairs(lows, highs, n - 1, highs.len() as int)
    }
}

/// For two instants that are neither leap seconds nor outside chrono's calendar,
/// "same expiry" is the plain difference being under a whole day.
pub open spec fn same_expiry_read(a: UtcInstant, b: UtcInstant) -> bool {
    plain_instant(a) && plain_instant(b) ==> (same_expiry(a, b) <==> whole_days_formula(a, b)
        == 0)
}

/// Index pairs (low leg, high leg) of markets that expire on the same day, in the order
/// the scanner lists them: by low market, then by high market. Between plain instants,
/// "same day" means a difference that cuts to zero whole days.
pub fn same_expiry_pairs(low_ends: &Vec<UtcInstant>, high_ends: &Vec<UtcInstant>) -> (pairs: Vec<
    (usize, usize),
>)
    ensures
        pairs@ == expiry_pairs_spec(low_ends@, high_ends@, low_ends@.len() as int),
        forall|x: int, y: int|
            0 <= x < low_ends@.len() && 0 <= y < high_ends@.len() ==> #[trigger] same_expiry_read(
                low_ends@[x],
                high_ends@[y],
            ),
{
    let mut pairs: Vec<(usize, usize)> = Vec::new();
    let mut i: usize = 0;
    while i < low_ends.len()
        invariant
            i <= low_ends@.len(),
            pairs@ == expiry_pairs_spec(low_ends@, high_ends@, i as int),
            forall|x: int, y: int|
                0 <= x < i && 0 <= y < high_ends@.len() ==> #[trigger] same_expiry_read(
                    low_ends@[x],
                    high_ends@[y],
                ),
        decreases low_ends@.len() - i,
    {
        let ghost before = pairs@;
        let mut j: usize = 0;
        while j < high_ends.len()
            invariant
                i < low_ends@.len(),
                j <= high_ends@.len(),
                pairs@ == before + row_pairs(low_ends@, high_ends@, i as int, j as int),
                forall|x: int, y: int|
                    0 <= x < i && 0 <= y < high_ends@.len() ==> #[trigger] same_expiry_read(
                        low_ends@[x],
                        high_ends@[y],
                    ),
                forall|y: int| 0 <= y < j ==> #[trigger] same_expiry_read(low_ends@[i as int], high_ends@[y]),
            decreases high_ends@.len() - j,
        {
            let ghost mid = pairs@;
            match whole_days_between(low_ends[i], high_ends[j]) {
                Some(d) => {
                    if d == 0 {
                        pairs.push((i, j));
                        assert(pairs@ == mid.push((i, j)));
                    }
                },
                None => {},
            }
            assert(same_expiry_read(low_ends@[i as int], high_ends@[j as int]));
            proof {
                let r = row_pairs(low_ends@, high_ends@, i as int, j + 1);
                assert(before + r == pairs@);
            }
            j += 1;
        }
        assert forall|x: int, y: int|
            0 <= x < i + 1 && 0 <= y < high_ends@.len() implies #[trigger] same_expiry_read(
                low_ends@[x],
                high_ends@[y],
            ) by {}
        i += 1;
    }
    pairs
}

/// Law: two plain instants (neither a leap second, both in chrono's calendar) read as the same expiry exactly when they lie less than one whole
/// day apart.
pub proof fn lemma_same_expiry_within_a_day(a: UtcInstant, b: UtcInstant)
    requires
        same_expiry_read(a, b),
        plain_instant(a),
        plain_instant(b),
    ensures
        same_expiry(a, b) <==> -86_400_000_000_000 < (a.secs - b.secs) * 1_000_000_000 + (a.nanos
            - b.nanos) < 86_400_000_000_000,
{
    let x = (a.secs - b.secs) * 1_000_000_000 + (a.nanos - b.nanos);
    let s = trunc_div(x, 1_000_000_000);
    assert(trunc_div(s, 86400) == 0 <==> -86400 < s < 86400);
    assert(-86400 < s < 86400 <==> -86_400_000_000_000 < x < 86_400_000_000_000);
}

proof fn lemma_row_pairs(lows: Seq<UtcInstant>, highs: Seq<UtcInstant>, i: int, m: int)
    requires
        0 <= i < lows.len() <= usize::MAX,
        0 <= m <= highs.len() <= usize::MAX,
    ensures
        forall|p: (usize, usize)|
            row_pairs(lows, highs, i, m).contains(p) <==> (p.0 == i && p.1 < m && same_expiry(
                lows[i],
                highs[p.1 as int],
            )),
    decreases m,
{
    if m > 0 {
        lemma_row_pairs(lows, highs, i, m - 1);
        let r = row_pairs(lows, highs, i, m - 1);
        let q = row_pairs(lows, highs, i, m);
        assert forall|p: (usize, usize)| q.contains(p) <==> (p.0 == i && p.1 < m && same_expiry(
            lows[i],
            highs[p.1 as int],
        )) by {
            if same_expiry(lows[i], highs[m - 1]) {
                assert(q == r.push((i as usize, (m - 1) as usize)));
                if q.contains(p) {
                    let w = choose|w: int| 0 <= w < q.len() && q[w] == p;
                    if w < r.len() {
                        assert(r[w] == p);
                    }
                }
                if r.contains(p) {
                    let w = choose|w: int| 0 <= w < r.len() && r[w] == p;
                    assert(q[w] == p);
                }
                if p.0 == i && p.1 == m - 1 {
                    assert(q[q.len() - 1] == p);
                }
            } else {
                assert(q == r);
            }
        }
    }
}

/// Law: the scanner pairs a low market with a high market exactly when the two expire on
/// the same day; every such combination is listed, and no other.
pub proof fn lemma_pairs_are_same_expiry(lows: Seq<UtcInstant>, highs: Seq<UtcInstant>, n: int)
    requires
        0 <= n <= lows.len() <= usize::MAX,
        highs.len() <= usize::MAX,
    ensures
        forall|p: (usize, usize)|
            expiry_pairs_spec(lows, highs, n).contains(p) <==> (p.0 < n && p.1 < highs.len()
                && same_expiry(lows[p.0 as int], highs[p.1 as int])),
    decreases n,
{
    if n > 0 {
        lemma_pairs_are_same_expiry(lows, highs, n - 1);
        lemma_row_pairs(lows, highs, n - 1, highs.len() as int);
        let a = expiry_pairs_spec(lows, highs, n - 1);
        let b = row_pairs(lows, highs, n - 1, highs.len() as int);
        let c = expiry_pairs_spec(lows, highs, n);
        assert(c == a + b);
        assert forall|p: (usize, usize)| c.contains(p) <==> (p.0 < n && p.1 < highs.len()
            && same_expiry(lows[p.0 as int], highs[p.1 as int])) by {
            if c.contains(p) {
                let w = choose|w: int| 0 <= w < c.len() && c[w] == p;
                if w < a.len() {
                    assert(a[w] == p);
                } else {
                    assert(b[w - a.len()] == p);
                }
            }
            if a.contains(p) {
                let w = choose|w: int| 0 <= w < a.len() && a[w] == p;
                assert(c[w] == p);
            }
            if b.contains(p) {
                let w = choose|w: int| 0 <= w < b.len() && b[w] == p;
                assert(c[a.len() + w] == p);
            }
        }
    }
}

/// `p` comes before `q`: by low market, then by high market.
pub open spec fn pair_before(p: (usize, usize), q: (usize, usize)) -> bool {
    p.0 < q.0 || (p.0 == q.0 && p.1 < q.1)
}

proof fn lemma_row_pairs_sorted(lows: Seq<UtcInstant>, highs: Seq<UtcInstant>, i: int, m: int)
    requires
        0 <= i < lows.len() <= usize::MAX,
        0 <= m <= highs.len() <= usize::MAX,
    ensures
        forall|a: int, b: int|
            0 <= a < b < row_pairs(lows, highs, i, m).len() ==> pair_before(
                row_pairs(lows, highs, i, m)[a],
                row_pairs(lows, highs, i, m)[b],
            ),
        forall|a: int|
            0 <= a < row_pairs(lows, highs, i, m).len() ==> (#[trigger] row_pairs(
                lows,
                highs,
                i,
                m,
            )[a]).0 == i && row_pairs(lows, highs, i, m)[a].1 < m,
    decreases m,
{
    if m > 0 {
        lemma_row_pairs_sorted(lows, highs, i, m - 1);
        let r = row_pairs(lows, highs, i, m - 1);
        let q = row_pairs(lows, highs, i, m);
        if same_expiry(lows[i], highs[m - 1]) {
            assert(q == r.push((i as usize, (m - 1) as usize)));
            assert forall|a: int| 0 <= a < q.len() implies (#[trigger] q[a]).0 == i && q[a].1 < m by {
                if a < r.len() {
                    assert(q[a] == r[a]);
                }
            }
            assert forall|a: int, b: int| 0 <= a < b < q.len() implies pair_before(q[a], q[b]) by {
                assert(q[a] == r[a]);
                if b < r.len() {
                    assert(q[b] == r[b]);
                }
            }
        } else {
            assert(q == r);
        }
    }
}

/// Law: the pairs are listed in strictly increasing order (by low market, then by high
/// market), so each same-expiry couple is listed exactly once.
pub proof fn lemma_pairs_listed_once(lows: Seq<UtcInstant>, highs: Seq<UtcInstant>, n: int)
    requires
        0 <= n <= lows.len() <= usize::MAX,
        highs.len() <= usize::MAX,
    ensures
        forall|a: int, b: int|
            0 <= a < b < expiry_pairs_spec(lows, highs, n).len() ==> pair_before(
                expiry_pairs_spec(lows, highs, n)[a],
                expiry_pairs_spec(lows, highs, n)[b],
            ),
        forall|a: int|
            0 <= a < expiry_pairs_spec(lows, highs, n).len() ==> (#[trigger] expiry_pairs_spec(
                lows,
                highs,
                n,
            )[a]).0 < n,
        forall|a: int, b: int|
            0 <= a < b < expiry_pairs_spec(lows, highs, n).len() ==> expiry_pairs_spec(
                lows,
                highs,
                n,
            )[a] != expiry_pairs_spec(lows, highs, n)[b],
    decreases n,
{
    if n > 0 {
        lemma_pairs_listed_once(lows, highs, n - 1);
        lemma_row_pairs_sorted(lows, highs, n - 1, highs.len() as int);
        let x = expiry_pairs_spec(lows, highs, n - 1);
        let y = row_pairs(lows, highs, n - 1, highs.len() as int);
        let c = expiry_pairs_spec(lows, highs, n);
        assert(c == x + y);
        assert forall|a: int| 0 <= a < c.len() implies (#[trigger] c[a]).0 < n by {
            if a < x.len() {
                assert(c[a] == x[a]);
            } else {
                assert(c[a] == y[a - x.len()]);
            }
        }
        assert forall|a: int, b: int| 0 <= a < b < c.len() implies pair_before(c[a], c[b]) by {
            if b < x.len() {
                assert(c[a] == x[a] && c[b] == x[b]);
            } else if a < x.len() {
                assert(c[a] == x[a] && c[b] == y[b - x.len()]);
            } else {
                assert(c[a] == y[a - x.len()] && c[b] == y[b - x.len()]);
            }
        }
        assert forall|a: int, b: int| 0 <= a < b < c.len() implies c[a] != c[b] by {
            assert(pair_before(c[a], c[b]));
        }
    }
}

// ── Laws of the threshold reading ───────────────────────────────────────────────

/// `t` is written with digits and commas only and starts with a digit.
pub open spec fn digits_and_commas(t: Seq<char>) -> bool {
    &&& t.len() > 0
    &&& '0' <= t[0] && t[0] <= '9'
    &&& forall|j: int| 0 <= j < t.len() ==> ('0' <= #[trigger] t[j] && t[j] <= '9') || t[j] == ','
}

/// Nothing of `q` continues a number: it is empty or starts with neither a digit, a comma
/// nor a decimal point.
pub open spec fn ends_number(q: Seq<char>) -> bool {
    q.len() == 0 || !(('0' <= q[0] && q[0] <= '9') || q[0] == ',' || q[0] == '.')
}

proof fn lemma_first_dollar_at(s: Seq<char>, k: int, i: int)
    requires
        0 <= i <= k,
        k + 1 < s.len(),
        s[k] == '$',
        '0' <= s[k + 1] && s[k + 1] <= '9',
        forall|j: int| 0 <= j < k ==> s[j] != '$',
    ensures
        first_dollar_match(s, i) == Some(k),
    decreases k - i,
{
    if i < k {
        lemma_first_dollar_at(s, k, i + 1);
    }
}

proof fn lemma_num_run_to(s: Seq<char>, j: int, e: int)
    requires
        0 <= j <= e <= s.len(),
        forall|x: int| j <= x < e ==> ('0' <= #[trigger] s[x] && s[x] <= '9') || s[x] == ',',
        e < s.len() ==> !(('0' <= s[e] && s[e] <= '9') || s[e] == ','),
    ensures
        num_run_end(s, j) == e,
    decreases e - j,
{
    if j < e {
        lemma_num_run_to(s, j + 1, e);
    }
}

proof fn lemma_strip_commas_keeps_a_digit(t: Seq<char>, w: int)
    requires
        0 <= w < t.len(),
        t[w] != ',',
    ensures
        strip_commas(t).len() > 0,
    decreases t.len(),
{
    if t.last() == ',' {
        lemma_strip_commas_keeps_a_digit(t.drop_last(), w);
    }
}

/// Law: a question that names its threshold as `$` followed by a number written with digits
/// and commas (`"Will Bitcoin be above $90,000 on March 7?"`) reads as that number with its
/// commas removed, whatever text without a `$` comes before it and whatever text that does
/// not continue the number comes after it.
pub proof fn lemma_dollar_threshold(p: Seq<char>, t: Seq<char>, q: Seq<char>)
    requires
        forall|j: int| 0 <= j < p.len() ==> p[j] != '$',
        digits_and_commas(t),
        ends_number(q),
    ensures
        threshold_text_spec(p + seq!['$'] + t + q) == Some(strip_commas(t)),
{
    let s = p + seq!['$'] + t + q;
    let k = p.len() as int;
    let e = k + 1 + t.len();
    assert(s[k] == '$');
    assert(s[k + 1] == t[0]);
    assert forall|j: int| 0 <= j < k implies s[j] != '$' by {
        assert(s[j] == p[j]);
    }
    lemma_first_dollar_at(s, k, 0);
    assert forall|x: int| k + 1 <= x < e implies ('0' <= #[trigger] s[x] && s[x] <= '9') || s[x]
        == ',' by {
        assert(s[x] == t[x - k - 1]);
    }
    if e < s.len() {
        assert(s[e] == q[0]);
    }
    lemma_num_run_to(s, k + 1, e);
    assert(number_end(s, k + 1) == e);
    assert(s.subrange(k + 1, e) == t);
    lemma_strip_commas_keeps_a_digit(t, 0);
}

/// `t` without commas is `t` itself when it has none.
proof fn lemma_strip_no_commas(t: Seq<char>)
    requires
        forall|j: int| 0 <= j < t.len() ==> #[trigger] t[j] != ',',
    ensures
        strip_commas(t) == t,
    decreases t.len(),
{
    if t.len() > 0 {
        lemma_strip_no_commas(t.drop_last());
    }
}

/// Law: `$` followed by the decimal writing of any number, as in `"... above $90000?"`,
/// reads as exactly that number.
pub proof fn lemma_dollar_decimal(p: Seq<char>, n: u64, q: Seq<char>)
    requires
        forall|j: int| 0 <= j < p.len() ==> p[j] != '$',
        ends_number(q),
    ensures
        threshold_text_spec(p + seq!['$'] + decimal(n as nat) + q) == Some(decimal(n as nat)),
{
    let d = decimal(n as nat);
    lemma_decimal_digits(n as nat);
    assert(is_ascii_digit(d[0]));
    assert forall|j: int| 0 <= j < d.len() implies ('0' <= #[trigger] d[j] && d[j] <= '9') || d[j]
        == ',' by {
        assert(is_ascii_digit(d[j]));
    }
    assert forall|j: int| 0 <= j < d.len() implies #[trigger] d[j] != ',' by {
        assert(is_ascii_digit(d[j]));
    }
    lemma_dollar_threshold(p, d, q);
    lemma_strip_no_commas(d);
}

/// Law: for `n` days on which the clock's calendar is defined, exactly `n` slugs are
/// generated, one per day and in date order.
pub proof fn lemma_one_slug_per_day(now_secs: i64, n: nat)
    requires
        forall|i: nat| i < n ==> (#[trigger] slug_of_day(now_secs, i)) is Some,
    ensures
        event_slugs_spec(now_secs, n).len() == n,
        forall|i: int|
            0 <= i < n ==> Some(event_slugs_spec(now_secs, n)[i]) == slug_of_day(now_secs, i as nat),
    decreases n,
{
    if n > 0 {
        lemma_one_slug_per_day(now_secs, (n - 1) as nat);
        let p = event_slugs_spec(now_secs, (n - 1) as nat);
        assert(slug_of_day(now_secs, (n - 1) as nat) is Some);
        let q = event_slugs_spec(now_secs, n);
        assert forall|i: int| 0 <= i < n implies Some(q[i]) == slug_of_day(now_secs, i as nat) by {
            if i < n - 1 {
                assert(q[i] == p[i]);
            }
        }
    }
}

// ── Candidate markets ────────────────────────────────────────────────────────────

/// Texts of one market of an event, as the exchange's API gives them.
pub struct MarketText {
    pub question: Option<String>,
    pub title: Option<String>,
    pub end_date: Option<String>,
    pub end_date_iso: Option<String>,
}

/// What a market contributes as a candidate leg, before its price is read.
pub struct CandidateText {
    pub question: String,
    pub threshold_text: String,
    pub end_date: UtcInstant,
    pub yes_token_id: String,
    pub no_token_id: Option<String>,
}

pub open spec fn opt_view(o: Option<String>) -> Option<Seq<char>> {
    match o {
        Some(s) => Some(s@),
        None => None,
    }
}

pub open spec fn or_else_spec(a: Option<Seq<char>>, b: Option<Seq<char>>) -> Option<Seq<char>> {
    match a {
        Some(x) => Some(x),
        None => b,
    }
}

pub open spec fn or_empty(a: Option<Seq<char>>) -> Seq<char> {
    match a {
        Some(x) => x,
        None => seq![],
    }
}

/// The question of a market: its `question`, else its `title`, else empty.
pub open spec fn question_of(m: MarketText) -> Seq<char> {
    or_empty(or_else_spec(opt_view(m.question), opt_view(m.title)))
}

/// The expiry text of a market: its `endDate`, else `endDateIso`, else the event's
/// `endDate`, else empty.
pub open spec fn date_text_of(m: MarketText, event_end: Option<Seq<char>>) -> Seq<char> {
    or_empty(or_else_spec(or_else_spec(opt_view(m.end_date), opt_view(m.end_date_iso)), event_end))
}

/// A market is a candidate leg when its question states a threshold, its expiry reads as a
/// date, and its first token id is present and non-empty; the second token id, if any, is
/// that of the NO outcome.
pub open spec fn candidate_spec(m: MarketText, event_end: Option<Seq<char>>, ids: Seq<Seq<char>>) -> Option<
    (Seq<char>, Seq<char>, UtcInstant, Seq<char>, Option<Seq<char>>),
> {
    let q = question_of(m);
    match (threshold_text_spec(q), end_date_spec(date_text_of(m, event_end))) {
        (Some(t), Some(e)) => if ids.len() > 0 && ids[0].len() > 0 {
            Some(
                (
                    q,
                    t,
                    e,
                    ids[0],
                    if ids.len() > 1 {
                        Some(ids[1])
                    } else {
                        None
                    },
                ),
            )
        } else {
            None
        },
        _ => None,
    }
}

pub open spec fn candidate_view(c: CandidateText) -> (
    Seq<char>,
    Seq<char>,
    UtcInstant,
    Seq<char>,
    Option<Seq<char>>,
) {
    (c.question@, c.threshold_text@, c.end_date, c.yes_token_id@, opt_view(c.no_token_id))
}

fn clone_opt(o: &Option<String>) -> (r: Option<String>)
    ensures
        opt_view(r) == opt_view(*o),
{
    match o {
        Some(s) => Some(s.clone()),
        None => None,
    }
}

/// Reads the parts of a market that make it a candidate leg (question, threshold text,
/// expiry, token ids); `None` when any of them is missing. `token_ids` are the market's
/// outcome token ids in order.
pub fn market_candidate(market: &MarketText, event_end: &Option<String>, token_ids: &Vec<String>) -> (r: Option<CandidateText>)
    ensures
        r is Some <==> candidate_spec(*market, opt_view(*event_end), token_ids@.map_values(|s: String| s@)) is Some,
        r matches Some(c) ==> Some(candidate_view(c)) == candidate_spec(
            *market,
            opt_view(*event_end),
            token_ids@.map_values(|s: String| s@),
        ),
{
    let question: String = match &market.question {
        Some(q) => q.clone(),
        None => match &market.title {
            Some(t) => t.clone(),
            None => String::new(),
        },
    };
    assert(question@ == question_of(*market));
    let threshold_text = match parse_threshold(question.as_str()) {
        Some(t) => t,
        None => return None,
    };
    let date_text: String = match clone_opt(&market.end_date) {
        Some(d) => d,
        None => match clone_opt(&market.end_date_iso) {
            Some(d) => d,
            None => match clone_opt(event_end) {
                Some(d) => d,
                None => String::new(),
            },
        },
    };
    assert(date_text@ == date_text_of(*market, opt_view(*event_end)));
    let end_date = match parse_end_date(date_text.as_str()) {
        Some(e) => e,
        None => return None,
    };
    if token_ids.len() == 0 || token_ids[0].as_str().is_empty() {
        return None;
    }
    let yes_token_id = token_ids[0].clone();
    let no_token_id = if token_ids.len() > 1 {
        Some(token_ids[1].clone())
    } else {
        None
    };
    Some(CandidateText { question, threshold_text, end_date, yes_token_id, no_token_id })
}

// ── Token id lists ───────────────────────────────────────────────────────────────

/// The list of strings that `serde_json::from_str::<Vec<String>>` decodes from `s`.
pub uninterp spec fn json_string_list_spec(s: Seq<char>) -> Option<Seq<Seq<char>>>;

/// `serde_json::from_str::<Vec<String>>(s)`; `None` on a decoding error.
#[verifier::external_body]
fn decode_string_list(s: &str) -> (r: Option<Vec<String>>)
    ensures
        r is Some <==> json_string_list_spec(s@) is Some,
        r matches Some(v) ==> json_string_list_spec(s@) == Some(strings_view(v@)),
{
    match serde_json::from_str::<Vec<String>>(s) {
        Ok(v) => Some(v),
        Err(_) => None,
    }
}

/// A list of token ids as the exchange's API sends it: a JSON array (each item a string or
/// not), a string holding a JSON-encoded array, or anything else.
pub enum IdListField {
    Array(Vec<Option<String>>),
    Text(String),
    Other,
}

/// The strings among `v`, in order.
pub open spec fn present_strings(v: Seq<Option<String>>) -> Seq<Seq<char>>
    decreases v.len(),
{
    if v.len() == 0 {
        seq![]
    } else {
        let p = present_strings(v.drop_last());
        match v.last() {
            Some(s) => p.push(s@),
            None => p,
        }
    }
}

/// Token ids of a field: the string items of an array; the decoded list of a string, or
/// none when it does not decode; none for anything else.
pub open spec fn token_ids_spec(f: IdListField) -> Seq<Seq<char>> {
    match f {
        IdListField::Array(v) => present_strings(v@),
        IdListField::Text(s) => match json_string_list_spec(s@) {
            Some(l) => l,
            None => seq![],
        },
        IdListField::Other => seq![],
    }
}

/// Reads the token ids (or outcome prices) of a market field.
pub fn token_ids_of(field: &IdListField) -> (ids: Vec<String>)
    ensures
        strings_view(ids@) == token_ids_spec(*field),
{
    match field {
        IdListField::Array(v) => {
            let mut out: Vec<String> = Vec::new();
            let mut i: usize = 0;
            while i < v.len()
                invariant
                    i <= v@.len(),
                    strings_view(out@) == present_strings(v@.take(i as int)),
                decreases v@.len() - i,
            {
                let ghost prev = out@;
                assert(v@.take(i + 1).drop_last() == v@.take(i as int));
                match &v[i] {
                    Some(s) => {
                        out.push(s.clone());
                        assert(strings_view(out@) == strings_view(prev).push(s@));
                    },
                    None => {},
                }
                i += 1;
            }
            assert(v@.take(v@.len() as int) == v@);
            out
        },
        IdListField::Text(s) => match decode_string_list(s.as_str()) {
            Some(l) => l,
            None => Vec::new(),
        },
        IdListField::Other => Vec::new(),
    }
}

/// Why a scan finds no pairs.
#[derive(Debug, Clone, Copy, PartialEq, Eq, Structural)]
pub enum ScanError {
    /// No event slug could be generated for the timeframe.
    NoSlugs,
    /// One side has no candidate market.
    InsufficientMarkets { low: usize, high: usize },
}

/// A scan needs at least one event slug to look up.
pub fn check_slugs(slugs: &Vec<String>) -> (r: Result<(), ScanError>)
    ensures
        r is Ok <==> slugs@.len() > 0,
        r is Err ==> r == Err::<(), ScanError>(ScanError::NoSlugs),
{
    if slugs.len() == 0 {
        Err(ScanError::NoSlugs)
    } else {
        Ok(())
    }
}

/// Pairs the low and high candidate markets (given by their end dates) that expire on the
/// same day; fails when either side has no candidate.
pub fn pair_legs(low_ends: &Vec<UtcInstant>, high_ends: &Vec<UtcInstant>) -> (r: Result<
    Vec<(usize, usize)>,
    ScanError,
>)
    ensures
        r is Err <==> low_ends@.len() == 0 || high_ends@.len() == 0,
        r is Err ==> r == Err::<Vec<(usize, usize)>, ScanError>(
            ScanError::InsufficientMarkets { low: low_ends@.len() as usize, high: high_ends@.len() as usize },
        ),
        r matches Ok(p) ==> p@ == expiry_pairs_spec(low_ends@, high_ends@, low_ends@.len() as int),
{
    if low_ends.len() == 0 || high_ends.len() == 0 {
        return Err(ScanError::InsufficientMarkets { low: low_ends.len(), high: high_ends.len() });
    }
    Ok(same_expiry_pairs(low_ends, high_ends))
}

/// Page of the event with slug `slug` on the exchange's site.
pub open spec fn market_url_spec(slug: Seq<char>) -> Seq<char> {
    "https://polymarket.com/event/"@ + slug
}

/// Link to the event `slug`, with no query string attached.
pub fn market_url(slug: &str) -> (url: String)
    ensures
        url@ == market_url_spec(slug@),
{
    let mut u = String::from_str("https://polymarket.com/event/");
    u.append(slug);
    u
}

} // verus!
