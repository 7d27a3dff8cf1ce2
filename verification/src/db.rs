//! Pair labels of persisted dry-run orders and the settlement schedule.
use vstd::prelude::*;

use crate::calendar::{parse_rfc3339, rfc3339_spec, UtcInstant};
use crate::scanner::digit_run_end;
use crate::text::{all_digits, chars_of, is_ascii_digit, string_from_range};

verus! {

/// `\$([0-9]+)k[–-]\$([0-9]+)k` matches at `i`; the two captures end at the returned
/// positions.
pub open spec fn label_match_at(s: Seq<char>, i: int) -> bool {
    let a = digit_run_end(s, i + 1);
    let b = digit_run_end(s, a + 3);
    &&& 0 <= i && i < s.len()
    &&& s[i] == '$'
    &&& a > i + 1
    &&& a + 3 < s.len()
    &&& s[a] == 'k'
    &&& (s[a + 1] == '–' || s[a + 1] == '-')
    &&& s[a + 2] == '$'
    &&& b > a + 3
    &&& b < s.len()
    &&& s[b] == 'k'
}

/// Leftmost start at or after `i` of a label match.
pub open spec fn first_label_match(s: Seq<char>, i: int) -> Option<int>
    decreases s.len() - i,
{
    if i < 0 || i >= s.len() {
        None
    } else if label_match_at(s, i) {
        Some(i)
    } else {
        first_label_match(s, i + 1)
    }
}

/// Digits (thousands of dollars) of the low and high threshold written in a pair label
/// such as `BTC $85k–$95k`.
pub open spec fn pair_thresholds_spec(s: Seq<char>) -> Option<(Seq<char>, Seq<char>)> {
    match first_label_match(s, 0) {
        Some(i) => {
            let a = digit_run_end(s, i + 1);
            let b = digit_run_end(s, a + 3);
            Some((s.subrange(i + 1, a), s.subrange(a + 3, b)))
        },
        None => None,
    }
}

fn digit_run_end_at(s: &Vec<char>, i: usize) -> (r: usize)
    requires
        i <= s@.len(),
    ensures
        r as int == digit_run_end(s@, i as int),
        i <= r <= s@.len(),
{
    let mut j = i;
    while j < s.len() && ('0' <= s[j] && s[j] <= '9')
        invariant
            i <= j <= s@.len(),
            digit_run_end(s@, i as int) == digit_run_end(s@, j as int),
        decreases s@.len() - j,
    {
        j += 1;
    }
    j
}

/// Where the label pattern matches at `i`, the ends of its two captures.
fn label_match_exec(s: &Vec<char>, i: usize) -> (r: Option<(usize, usize)>)
    requires
        i < s@.len(),
    ensures
        r is Some <==> label_match_at(s@, i as int),
        r matches Some((a, b)) ==> a == digit_run_end(s@, i + 1) && b == digit_run_end(
            s@,
            a + 3,
        ) && i + 1 < a && a + 3 < b && b < s@.len(),
{
    let n = s.len();
    if s[i] != '$' || i + 1 > n {
        return None;
    }
    let a = digit_run_end_at(s, i + 1);
    if a == i + 1 || a >= s.len() || s.len() - a <= 3 {
        return None;
    }
    if s[a] != 'k' || !(s[a + 1] == '–' || s[a + 1] == '-') || s[a + 2] != '$' {
        return None;
    }
    let b = digit_run_end_at(s, a + 3);
    if b == a + 3 || b >= s.len() || s[b] != 'k' {
        return None;
    }
    Some((a, b))
}

/// Low and high threshold digits (in thousands of dollars) of a pair label such as
/// `BTC $85k–$95k`; `None` when the label holds no such range.
pub fn parse_pair_thresholds(label: &str) -> (r: Option<(String, String)>)
    ensures
        r is Some <==> pair_thresholds_spec(label@) is Some,
        r matches Some((lo, hi)) ==> pair_thresholds_spec(label@) == Some((lo@, hi@)),
{
    let s = chars_of(label);
    let mut i: usize = 0;
    while i < s.len()
        invariant
            i <= s@.len(),
            s@ == label@,
            first_label_match(s@, 0) == first_label_match(s@, i as int),
        decreases s@.len() - i,
    {
        if let Some((a, b)) = label_match_exec(&s, i) {
            let lo = string_from_range(s.as_slice(), i + 1, a);
            let hi = string_from_range(s.as_slice(), a + 3, b);
            return Some((lo, hi));
        }
        i += 1;
    }
    None
}

/// The label of a pair with the given threshold digits (thousands of dollars).
pub open spec fn pair_label_spec(low_k: Seq<char>, high_k: Seq<char>) -> Seq<char> {
    "BTC $"@ + low_k + "k–$"@ + high_k + "k"@
}

/// Label `BTC ${low_k}k–${high_k}k` under which the two orders of a pair are stored.
pub fn pair_label(low_k: &str, high_k: &str) -> (label: String)
    ensures
        label@ == pair_label_spec(low_k@, high_k@),
{
    let mut s = String::from_str("BTC $");
    s.append(low_k);
    s.append("k–$");
    s.append(high_k);
    s.append("k");
    s
}

/// An open order is due for settlement at `now` once its expiry, an RFC 3339 instant, has
/// been reached. An order without a readable expiry is never settled.
pub open spec fn settlement_due_spec(expiry: Seq<char>, now: UtcInstant) -> bool {
    expiry.len() > 0 && match rfc3339_spec(expiry) {
        Some(e) => !(now.secs < e.secs || (now.secs == e.secs && now.nanos < e.nanos)),
        None => false,
    }
}

/// Whether an open order with the stored `expiry` is settled at `now`.
pub fn settlement_due(expiry: &str, now: UtcInstant) -> (due: bool)
    ensures
        due == settlement_due_spec(expiry@, now),
{
    if expiry.is_empty() {
        return false;
    }
    match parse_rfc3339(expiry) {
        Some(t) => !(now.secs < t.secs || (now.secs == t.secs && now.nanos < t.nanos)),
        None => false,
    }
}

/// Whether a settled order won. A LOW leg (YES on "BTC above X") wins when the price ended
/// above X; a HIGH leg (NO on "BTC above Y") wins when it ended below Y; an order of any
/// other leg wins when the price ended inside the pair's range.
pub open spec fn leg_won_spec(leg: Seq<char>, above_low: bool, below_high: bool, in_range: bool) -> bool {
    if leg == "LOW"@ {
        above_low
    } else if leg == "HIGH"@ {
        below_high
    } else {
        in_range
    }
}

/// Law: a LOW leg wins exactly when the price ended above the low threshold, whatever the
/// high side; a HIGH leg exactly when it ended below the high threshold, whatever the low
/// side; and an order of any leg settled strictly inside its range is won.
pub proof fn lemma_leg_outcomes(leg: Seq<char>, above_low: bool, below_high: bool, in_range: bool)
    ensures
        leg_won_spec("LOW"@, above_low, below_high, in_range) == above_low,
        leg_won_spec("HIGH"@, above_low, below_high, in_range) == below_high,
        leg_won_spec("LOW"@, above_low, true, true) == leg_won_spec("LOW"@, above_low, false, false),
        leg_won_spec("HIGH"@, true, below_high, true) == leg_won_spec("HIGH"@, false, below_high, false),
        leg_won_spec(leg, true, true, true),
{
    reveal_strlit("LOW");
    reveal_strlit("HIGH");
    assert("HIGH"@[0] != "LOW"@[0]);
}

/// Outcome of a settled order of leg `leg`, from where the settlement price lies:
/// `above_low` (above the low threshold), `below_high` (below the high threshold),
/// `in_range` (within both, inclusive).
pub fn leg_won(leg: &str, above_low: bool, below_high: bool, in_range: bool) -> (won: bool)
    ensures
        won == leg_won_spec(leg@, above_low, below_high, in_range),
        leg@ == "LOW"@ ==> (won <==> above_low),
        leg@ == "HIGH"@ ==> (won <==> below_high),
        above_low && below_high && in_range ==> won,
{
    proof {
        reveal_strlit("LOW");
        reveal_strlit("HIGH");
        assert("HIGH"@[0] != "LOW"@[0]);
    }
    let given = String::from_str(leg);
    if given == String::from_str("LOW") {
        above_low
    } else if given == String::from_str("HIGH") {
        below_high
    } else {
        in_range
    }
}

/// A run of digits `s[i..j]` ended by a non-digit (or by the end of `s`) is what
/// `digit_run_end` finds from `i`.
pub proof fn lemma_digit_run_end(s: Seq<char>, i: int, j: int)
    requires
        0 <= i <= j <= s.len(),
        forall|k: int| i <= k < j ==> is_ascii_digit(#[trigger] s[k]),
        j == s.len() || !is_ascii_digit(s[j]),
    ensures
        digit_run_end(s, i) == j,
    decreases j - i,
{
    if i < j {
        lemma_digit_run_end(s, i + 1, j);
    }
}

/// Law: the label written for a pair reads back as the pair's threshold digits, so that the
/// settlement of stored orders finds the range their pair was entered with.
pub proof fn lemma_pair_label_roundtrip(low_k: Seq<char>, high_k: Seq<char>)
    requires
        low_k.len() > 0,
        high_k.len() > 0,
        all_digits(low_k),
        all_digits(high_k),
    ensures
        pair_thresholds_spec(pair_label_spec(low_k, high_k)) == Some((low_k, high_k)),
{
    reveal_strlit("BTC $");
    reveal_strlit("k–$");
    reveal_strlit("k");
    let l = pair_label_spec(low_k, high_k);
    let n = low_k.len() as int;
    let m = high_k.len() as int;
    assert(l.len() == 5 + n + 3 + m + 1);
    assert(l[0] == 'B' && l[1] == 'T' && l[2] == 'C' && l[3] == ' ' && l[4] == '$');
    assert forall|k: int| 5 <= k < 5 + n implies is_ascii_digit(#[trigger] l[k]) by {
        assert(l[k] == low_k[k - 5]);
    }
    assert(l[5 + n] == 'k');
    assert(l[5 + n + 1] == '–');
    assert(l[5 + n + 2] == '$');
    assert forall|k: int| 5 + n + 3 <= k < 5 + n + 3 + m implies is_ascii_digit(#[trigger] l[k]) by {
        assert(l[k] == high_k[k - (5 + n + 3)]);
    }
    assert(l[5 + n + 3 + m] == 'k');
    lemma_digit_run_end(l, 5, 5 + n);
    lemma_digit_run_end(l, 5 + n + 3, 5 + n + 3 + m);
    assert(label_match_at(l, 4));
    assert(!label_match_at(l, 0) && !label_match_at(l, 1) && !label_match_at(l, 2)
        && !label_match_at(l, 3));
    assert(first_label_match(l, 4) == Some(4int));
    assert(first_label_match(l, 3) == Some(4int));
    assert(first_label_match(l, 2) == Some(4int));
    assert(first_label_match(l, 1) == Some(4int));
    assert(first_label_match(l, 0) == Some(4int));
    assert(l.subrange(5, 5 + n) == low_k);
    assert(l.subrange(5 + n + 3, 5 + n + 3 + m) == high_k);
}

/// Law: once an order is due for settlement it stays due: settlement is never undone by
/// a later clock reading.
pub proof fn lemma_settlement_stays_due(expiry: Seq<char>, now: UtcInstant, later: UtcInstant)
    requires
        settlement_due_spec(expiry, now),
        later.secs > now.secs || (later.secs == now.secs && later.nanos >= now.nanos),
    ensures
        settlement_due_spec(expiry, later),
{
}

} // verus!
