//! Entry scheduling of the historical backtest.
use vstd::prelude::*;

use crate::calendar::{utc_date, utc_date_spec, UtcInstant};
use crate::scanner::shifted_secs;

verus! {

/// How often the backtest opens a new trade.
#[derive(Debug, Clone, Copy, PartialEq, Eq, Structural)]
pub enum EntryInterval {
    Daily,
    Weekly,
    Monthly,
}

/// `"weekly"` and `"monthly"` name their interval; any other text means daily.
pub open spec fn entry_interval_spec(s: Seq<char>) -> EntryInterval {
    if s == "weekly"@ {
        EntryInterval::Weekly
    } else if s == "monthly"@ {
        EntryInterval::Monthly
    } else {
        EntryInterval::Daily
    }
}

/// Reads the entry-interval setting.
pub fn entry_interval(s: &str) -> (r: EntryInterval)
    ensures
        r == entry_interval_spec(s@),
{
    let given = String::from_str(s);
    if given == String::from_str("weekly") {
        EntryInterval::Weekly
    } else if given == String::from_str("monthly") {
        EntryInterval::Monthly
    } else {
        EntryInterval::Daily
    }
}

/// Number of leading candles that may open a trade: those followed by at least a holding
/// period of candles. The holding period is read as `usize` the way `as` converts an `i64`.
pub open spec fn max_start_spec(len: nat, duration_days: i64) -> nat {
    let d = (duration_days as usize) as nat;
    if len > d {
        (len - d) as nat
    } else {
        0
    }
}

/// The candle stamped `secs` falls on a Monday (UTC).
pub open spec fn is_monday(secs: i64) -> bool {
    utc_date_spec(secs) matches Some((y, m, d, w)) && w == 0
}

/// Indices `i < k` that are daily entries.
pub open spec fn daily_entries(k: nat) -> Seq<usize>
    decreases k,
{
    if k == 0 {
        seq![]
    } else {
        daily_entries((k - 1) as nat).push((k - 1) as usize)
    }
}

/// Indices `i < k` whose candle falls on a Monday.
pub open spec fn weekly_entries(ts: Seq<i64>, k: nat) -> Seq<usize>
    decreases k,
{
    if k == 0 {
        seq![]
    } else {
        let p = weekly_entries(ts, (k - 1) as nat);
        if is_monday(ts[k - 1]) {
            p.push((k - 1) as usize)
        } else {
            p
        }
    }
}

/// After the first `k` candles: the monthly entries so far and the (year, month) of the
/// latest entry (`(0, 0)` before any).
pub open spec fn monthly_scan(ts: Seq<i64>, k: nat) -> (Seq<usize>, (i32, u32))
    decreases k,
{
    if k == 0 {
        (seq![], (0i32, 0u32))
    } else {
        let (p, last) = monthly_scan(ts, (k - 1) as nat);
        match utc_date_spec(ts[k - 1]) {
            Some((y, m, d, w)) => if (y, m) != last {
                (p.push((k - 1) as usize), (y, m))
            } else {
                (p, last)
            },
            None => (p, last),
        }
    }
}

/// Entry candles of the backtest for the candle stamps `ts` (seconds since the epoch).
pub open spec fn entry_indices_spec(ts: Seq<i64>, interval: EntryInterval, duration_days: i64) -> Seq<
    usize,
> {
    let k = max_start_spec(ts.len(), duration_days);
    match interval {
        EntryInterval::Daily => daily_entries(k),
        EntryInterval::Weekly => weekly_entries(ts, k),
        EntryInterval::Monthly => monthly_scan(ts, k).0,
    }
}

/// Indices of the candles (stamped `timestamps`, seconds since the epoch) at which the
/// backtest opens a trade: every candle (`"daily"`, and any unknown interval), every Monday
/// (`"weekly"`), or the first candle of each calendar month (`"monthly"`), among the
/// candles that leave a full holding period of `duration_days` candles after them.
pub fn select_entry_indices(timestamps: &Vec<i64>, interval: &str, duration_days: i64) -> (r: Vec<
    usize,
>)
    ensures
        r@ == entry_indices_spec(timestamps@, entry_interval_spec(interval@), duration_days),
{
    let d: usize = duration_days as usize;
    let max_start: usize = if timestamps.len() > d {
        timestamps.len() - d
    } else {
        0
    };
    assert(max_start as nat == max_start_spec(timestamps@.len(), duration_days));
    let kind = entry_interval(interval);
    let mut result: Vec<usize> = Vec::new();
    let mut i: usize = 0;
    let mut last: (i32, u32) = (0, 0);
    while i < max_start
        invariant
            max_start <= timestamps@.len(),
            i <= max_start,
            kind == EntryInterval::Daily ==> result@ == daily_entries(i as nat),
            kind == EntryInterval::Weekly ==> result@ == weekly_entries(timestamps@, i as nat),
            kind == EntryInterval::Monthly ==> (result@, last) == monthly_scan(
                timestamps@,
                i as nat,
            ),
        decreases max_start - i,
    {
        match kind {
            EntryInterval::Daily => {
                result.push(i);
            },
            EntryInterval::Weekly => {
                if let Some((_y, _m, _d, w)) = utc_date(timestamps[i]) {
                    if w == 0 {
                        result.push(i);
                    }
                }
            },
            EntryInterval::Monthly => {
                if let Some((y, m, _d, _w)) = utc_date(timestamps[i]) {
                    if y != last.0 || m != last.1 {
                        result.push(i);
                        last = (y, m);
                    }
                }
            },
        }
        i += 1;
    }
    result
}

// ── Trade outcomes ───────────────────────────────────────────────────────────────

/// How a backtest trade ended.
#[derive(Debug, Clone, Copy, PartialEq, Eq, Structural)]
pub struct TradeOutcome {
    pub won: bool,
    pub stopped_out: bool,
    pub took_profit_early: bool,
}

/// A trade stopped out is lost; one closed by take-profit is won; one held to expiry is
/// won exactly when the price ends inside the range.
pub open spec fn trade_outcome_spec(stopped_out: bool, took_profit_early: bool, in_range: bool) -> TradeOutcome {
    TradeOutcome {
        won: !stopped_out && (took_profit_early || in_range),
        stopped_out,
        took_profit_early,
    }
}

/// Outcome of a trade from its exit (stop-loss, take-profit, or expiry inside the range).
pub fn trade_outcome(stopped_out: bool, took_profit_early: bool, in_range: bool) -> (o: TradeOutcome)
    ensures
        o == trade_outcome_spec(stopped_out, took_profit_early, in_range),
        stopped_out ==> !o.won,
        !stopped_out && took_profit_early ==> o.won,
        !stopped_out && !took_profit_early ==> (o.won <==> in_range),
        o.stopped_out == stopped_out && o.took_profit_early == took_profit_early,
{
    let won = if stopped_out {
        false
    } else if took_profit_early {
        true
    } else {
        in_range
    };
    TradeOutcome { won, stopped_out, took_profit_early }
}

/// Law: a trade stopped out by the stop-loss is lost, wherever the price ended and whatever
/// take-profit said; a trade closed by take-profit and not stopped out is won; a trade held
/// to expiry is won exactly when the price ended inside the range.
pub proof fn lemma_stopped_trades_lose(took_profit_early: bool, in_range: bool)
    ensures
        !trade_outcome_spec(true, took_profit_early, in_range).won,
        trade_outcome_spec(false, true, in_range).won,
        trade_outcome_spec(false, false, true).won,
        !trade_outcome_spec(false, false, false).won,
{
}

/// Trade counts of a backtest summary.
#[derive(Debug, Clone, Copy, PartialEq, Eq, Structural)]
pub struct TradeCounts {
    pub total_trades: usize,
    pub winning_trades: usize,
    pub losing_trades: usize,
    pub stopped_out: usize,
    pub took_profit: usize,
}

pub open spec fn count_won(s: Seq<TradeOutcome>) -> nat
    decreases s.len(),
{
    if s.len() == 0 {
        0
    } else {
        count_won(s.drop_last()) + if s.last().won {
            1nat
        } else {
            0nat
        }
    }
}

pub open spec fn count_stopped(s: Seq<TradeOutcome>) -> nat
    decreases s.len(),
{
    if s.len() == 0 {
        0
    } else {
        count_stopped(s.drop_last()) + if s.last().stopped_out {
            1nat
        } else {
            0nat
        }
    }
}

pub open spec fn count_took_profit(s: Seq<TradeOutcome>) -> nat
    decreases s.len(),
{
    if s.len() == 0 {
        0
    } else {
        count_took_profit(s.drop_last()) + if s.last().took_profit_early {
            1nat
        } else {
            0nat
        }
    }
}

pub proof fn lemma_counts_bounded(s: Seq<TradeOutcome>)
    ensures
        count_won(s) <= s.len(),
        count_stopped(s) <= s.len(),
        count_took_profit(s) <= s.len(),
    decreases s.len(),
{
    if s.len() > 0 {
        lemma_counts_bounded(s.drop_last());
    }
}

/// Counts the trades of a backtest: all, won, lost, stopped out, closed by take-profit.
pub fn count_outcomes(outcomes: &Vec<TradeOutcome>) -> (c: TradeCounts)
    ensures
        c.total_trades == outcomes@.len(),
        c.winning_trades == count_won(outcomes@),
        c.losing_trades == outcomes@.len() - count_won(outcomes@),
        c.winning_trades + c.losing_trades == c.total_trades,
        c.stopped_out == count_stopped(outcomes@),
        c.took_profit == count_took_profit(outcomes@),
{
    let mut won: usize = 0;
    let mut stopped: usize = 0;
    let mut took: usize = 0;
    let mut i: usize = 0;
    while i < outcomes.len()
        invariant
            i <= outcomes@.len(),
            won == count_won(outcomes@.take(i as int)),
            stopped == count_stopped(outcomes@.take(i as int)),
            took == count_took_profit(outcomes@.take(i as int)),
        decreases outcomes@.len() - i,
    {
        proof {
            lemma_counts_bounded(outcomes@.take(i as int));
            assert(outcomes@.take(i + 1).drop_last() == outcomes@.take(i as int));
        }
        let o = outcomes[i];
        if o.won {
            won += 1;
        }
        if o.stopped_out {
            stopped += 1;
        }
        if o.took_profit_early {
            took += 1;
        }
        i += 1;
    }
    assert(outcomes@.take(outcomes@.len() as int) == outcomes@);
    proof {
        lemma_counts_bounded(outcomes@);
    }
    TradeCounts {
        total_trades: outcomes.len(),
        winning_trades: won,
        losing_trades: outcomes.len() - won,
        stopped_out: stopped,
        took_profit: took,
    }
}

// ── Take-profit timing ───────────────────────────────────────────────────────────

/// At least half the holding period has passed after `elapsed` whole days: the quotient
/// `elapsed / duration` is at least one half (for a period of zero days, once a day has
/// passed).
pub open spec fn past_half_spec(elapsed: i64, duration: i64) -> bool {
    if duration > 0 {
        2 * elapsed >= duration
    } else if duration < 0 {
        2 * elapsed <= duration
    } else {
        elapsed > 0
    }
}

/// Whether a trade `elapsed_days` into a holding period of `duration_days` days may take
/// profit early: at least half the period has passed.
pub fn past_half_period(elapsed_days: i64, duration_days: i64) -> (b: bool)
    ensures
        b == past_half_spec(elapsed_days, duration_days),
{
    let twice: i128 = 2 * (elapsed_days as i128);
    if duration_days > 0 {
        twice >= duration_days as i128
    } else if duration_days < 0 {
        twice <= duration_days as i128
    } else {
        elapsed_days > 0
    }
}

// ── Holding period ───────────────────────────────────────────────────────────────

/// `a` is later than `b`.
pub open spec fn instant_after(a: UtcInstant, b: UtcInstant) -> bool {
    a.secs > b.secs || (a.secs == b.secs && a.nanos > b.nanos)
}

/// Expiry of a trade entered at `entry`: `duration_days` whole days later, when that instant
/// is representable (an `i64` of seconds that chrono can place on its calendar).
pub open spec fn expiry_of(entry: UtcInstant, duration_days: i64) -> Option<UtcInstant> {
    match shifted_secs_signed(entry.secs, duration_days as int) {
        Some(t) => if utc_date_spec(t) is Some {
            Some(UtcInstant { secs: t, nanos: entry.nanos })
        } else {
            None
        },
        None => None,
    }
}

/// `secs` moved by `days` whole days, where it fits in an `i64`.
pub open spec fn shifted_secs_signed(secs: i64, days: int) -> Option<i64> {
    let t = secs + days * 86400;
    if i64::MIN <= t <= i64::MAX {
        Some(t as i64)
    } else {
        None
    }
}

/// First index `k >= i` whose stamp is after `expiry`, or the length of `ts`.
pub open spec fn first_after(ts: Seq<UtcInstant>, i: int, expiry: UtcInstant) -> int
    decreases ts.len() - i,
{
    if 0 <= i < ts.len() && !instant_after(ts[i], expiry) {
        first_after(ts, i + 1, expiry)
    } else {
        i
    }
}

/// First index `k >= i` whose stamp is not before `expiry`.
pub open spec fn first_reaching(ts: Seq<UtcInstant>, i: int, expiry: UtcInstant) -> Option<int>
    decreases ts.len() - i,
{
    if i < 0 || i >= ts.len() {
        None
    } else if !instant_after(expiry, ts[i]) {
        Some(i)
    } else {
        first_reaching(ts, i + 1, expiry)
    }
}

/// The candles a trade is watched over: those after the entry up to (not including)
/// `scan_end`, and the candle that settles it at expiry, if any.
#[derive(Debug, Clone, Copy, PartialEq, Eq, Structural)]
pub struct HoldingWindow {
    pub expiry: UtcInstant,
    pub scan_end: usize,
    pub expiry_index: Option<usize>,
}

/// Holding window of the trade entered at candle `entry_idx`: the candles after it are
/// watched for early exits until the first one stamped after the expiry; the trade
/// settles at the first candle, from the entry on, stamped at or after the expiry.
pub fn holding_window(stamps: &Vec<UtcInstant>, entry_idx: usize, duration_days: i64) -> (w: HoldingWindow)
    requires
        entry_idx < stamps@.len(),
        expiry_of(stamps@[entry_idx as int], duration_days) is Some,
    ensures
        Some(w.expiry) == expiry_of(stamps@[entry_idx as int], duration_days),
        w.scan_end as int == first_after(stamps@, entry_idx + 1, w.expiry),
        w.expiry_index matches Some(k) ==> first_reaching(stamps@, entry_idx as int, w.expiry)
            == Some(k as int),
        w.expiry_index is None ==> first_reaching(stamps@, entry_idx as int, w.expiry) is None,
{
    let entry = stamps[entry_idx];
    let offset: i128 = (duration_days as i128) * 86400;
    let t128: i128 = (entry.secs as i128) + offset;
    assert(t128 >= i64::MIN && t128 <= i64::MAX);
    let expiry = UtcInstant { secs: t128 as i64, nanos: entry.nanos };
    assert(Some(expiry) == expiry_of(stamps@[entry_idx as int], duration_days));
    let n = stamps.len();
    let mut k = entry_idx + 1;
    while k < n && !(stamps[k].secs > expiry.secs || (stamps[k].secs == expiry.secs
        && stamps[k].nanos > expiry.nanos))
        invariant
            n == stamps@.len(),
            entry_idx < k <= n,
            first_after(stamps@, entry_idx + 1, expiry) == first_after(stamps@, k as int, expiry),
        decreases n - k,
    {
        k += 1;
    }
    let mut j = entry_idx;
    let mut expiry_index: Option<usize> = None;
    while j < n
        invariant
            n == stamps@.len(),
            entry_idx <= j <= n,
            expiry_index is None,
            Some(expiry) == expiry_of(stamps@[entry_idx as int], duration_days),
            k as int == first_after(stamps@, entry_idx + 1, expiry),
            first_reaching(stamps@, entry_idx as int, expiry) == first_reaching(
                stamps@,
                j as int,
                expiry,
            ),
        decreases n - j,
    {
        if !(expiry.secs > stamps[j].secs || (expiry.secs == stamps[j].secs && expiry.nanos
            > stamps[j].nanos)) {
            return HoldingWindow { expiry, scan_end: k, expiry_index: Some(j) };
        }
        j += 1;
    }
    HoldingWindow { expiry, scan_end: k, expiry_index }
}

/// Holding window of the trade entered at candle `entry_idx`, or `None` where its expiry
/// cannot be placed on the calendar (the instant `duration_days` days later is out of
/// range).
pub fn try_holding_window(stamps: &Vec<UtcInstant>, entry_idx: usize, duration_days: i64) -> (r:
    Option<HoldingWindow>)
    requires
        entry_idx < stamps@.len(),
    ensures
        r is Some <==> expiry_of(stamps@[entry_idx as int], duration_days) is Some,
        r matches Some(w) ==> {
            &&& Some(w.expiry) == expiry_of(stamps@[entry_idx as int], duration_days)
            &&& w.scan_end as int == first_after(stamps@, entry_idx + 1, w.expiry)
            &&& (w.expiry_index matches Some(k) ==> first_reaching(
                stamps@,
                entry_idx as int,
                w.expiry,
            ) == Some(k as int))
            &&& (w.expiry_index is None ==> first_reaching(stamps@, entry_idx as int, w.expiry)
                is None)
        },
{
    let entry = stamps[entry_idx];
    let t128: i128 = (entry.secs as i128) + (duration_days as i128) * 86400;
    if t128 < i64::MIN as i128 || t128 > i64::MAX as i128 {
        return None;
    }
    match utc_date(t128 as i64) {
        Some(_) => Some(holding_window(stamps, entry_idx, duration_days)),
        None => None,
    }
}

// ── Laws ─────────────────────────────────────────────────────────────────────────

proof fn lemma_daily_entries(k: nat)
    requires
        k <= usize::MAX,
    ensures
        daily_entries(k).len() == k,
        forall|i: int| 0 <= i < k ==> daily_entries(k)[i] == i,
    decreases k,
{
    if k > 0 {
        lemma_daily_entries((k - 1) as nat);
        let p = daily_entries((k - 1) as nat);
        assert forall|i: int| 0 <= i < k implies daily_entries(k)[i] == i by {
            if i < k - 1 {
                assert(daily_entries(k)[i] == p[i]);
            }
        }
    }
}

proof fn lemma_weekly_entries(ts: Seq<i64>, k: nat)
    requires
        k <= ts.len(),
        k <= usize::MAX,
    ensures
        forall|i: int, j: int|
            0 <= i < j < weekly_entries(ts, k).len() ==> weekly_entries(ts, k)[i] < weekly_entries(
                ts,
                k,
            )[j],
        forall|i: int|
            0 <= i < weekly_entries(ts, k).len() ==> weekly_entries(ts, k)[i] < k && is_monday(
                ts[weekly_entries(ts, k)[i] as int],
            ),
        forall|x: int| 0 <= x < k && is_monday(ts[x]) ==> weekly_entries(ts, k).contains(x as usize),
        weekly_entries(ts, k).len() <= k,
    decreases k,
{
    if k > 0 {
        lemma_weekly_entries(ts, (k - 1) as nat);
        let p = weekly_entries(ts, (k - 1) as nat);
        let q = weekly_entries(ts, k);
        if is_monday(ts[k - 1]) {
            assert(q == p.push((k - 1) as usize));
            assert forall|i: int| 0 <= i < q.len() implies q[i] < k && is_monday(
                ts[q[i] as int],
            ) by {
                if i < p.len() {
                    assert(q[i] == p[i]);
                }
            }
            assert forall|i: int, j: int| 0 <= i < j < q.len() implies q[i] < q[j] by {
                if j < p.len() {
                    assert(q[i] == p[i] && q[j] == p[j]);
                } else {
                    assert(q[i] == p[i]);
                }
            }
        } else {
            assert(q == p);
        }
        assert forall|x: int| 0 <= x < k && is_monday(ts[x]) implies q.contains(x as usize) by {
            if x < k - 1 {
                let w = choose|w: int| 0 <= w < p.len() && p[w] == x as usize;
                assert(q[w] == x as usize);
            } else {
                assert(q.last() == x as usize);
            }
        }
    }
}

proof fn lemma_monthly_scan(ts: Seq<i64>, k: nat)
    requires
        k <= ts.len(),
        k <= usize::MAX,
    ensures
        forall|i: int, j: int|
            0 <= i < j < monthly_scan(ts, k).0.len() ==> monthly_scan(ts, k).0[i] < monthly_scan(
                ts,
                k,
            ).0[j],
        forall|i: int| 0 <= i < monthly_scan(ts, k).0.len() ==> monthly_scan(ts, k).0[i] < k,
        monthly_scan(ts, k).0.len() <= k,
    decreases k,
{
    if k > 0 {
        lemma_monthly_scan(ts, (k - 1) as nat);
        let p = monthly_scan(ts, (k - 1) as nat).0;
        let q = monthly_scan(ts, k).0;
        if q.len() > p.len() {
            assert(q == p.push((k - 1) as usize));
            assert forall|i: int| 0 <= i < q.len() implies q[i] < k by {
                if i < p.len() {
                    assert(q[i] == p[i]);
                }
            }
            assert forall|i: int, j: int| 0 <= i < j < q.len() implies q[i] < q[j] by {
                if j < p.len() {
                    assert(q[i] == p[i] && q[j] == p[j]);
                } else {
                    assert(q[i] == p[i]);
                }
            }
        } else {
            assert(q == p);
        }
    }
}

/// Law: the entry candles are listed in increasing order, each leaves a full holding period
/// after it, and there are never more of them than daily entries would give.
pub proof fn lemma_entries_ordered(ts: Seq<i64>, interval: EntryInterval, duration_days: i64)
    requires
        ts.len() <= usize::MAX,
    ensures
        ({
            let e = entry_indices_spec(ts, interval, duration_days);
            let k = max_start_spec(ts.len(), duration_days);
            &&& forall|i: int, j: int| 0 <= i < j < e.len() ==> e[i] < e[j]
            &&& forall|i: int| 0 <= i < e.len() ==> e[i] < k
            &&& e.len() <= entry_indices_spec(ts, EntryInterval::Daily, duration_days).len()
        }),
{
    let k = max_start_spec(ts.len(), duration_days);
    lemma_daily_entries(k);
    lemma_weekly_entries(ts, k);
    lemma_monthly_scan(ts, k);
}

/// Law: daily entries are every candle that leaves a full holding period, in order; with
/// `n` candles and a holding period of `d < n` days there are `n - d` of them.
pub proof fn lemma_daily_entries_every_candle(ts: Seq<i64>, duration_days: i64)
    requires
        ts.len() <= usize::MAX,
    ensures
        ({
            let e = entry_indices_spec(ts, EntryInterval::Daily, duration_days);
            &&& e.len() == max_start_spec(ts.len(), duration_days)
            &&& forall|i: int| 0 <= i < e.len() ==> e[i] == i
        }),
{
    lemma_daily_entries(max_start_spec(ts.len(), duration_days));
}

/// Law: weekly entries are exactly the candles that fall on a Monday.
pub proof fn lemma_weekly_entries_are_mondays(ts: Seq<i64>, duration_days: i64, x: int)
    requires
        ts.len() <= usize::MAX,
        0 <= x < max_start_spec(ts.len(), duration_days),
    ensures
        entry_indices_spec(ts, EntryInterval::Weekly, duration_days).contains(x as usize)
            <==> is_monday(ts[x]),
{
    let k = max_start_spec(ts.len(), duration_days);
    lemma_weekly_entries(ts, k);
    let e = weekly_entries(ts, k);
    if e.contains(x as usize) {
        let w = choose|w: int| 0 <= w < e.len() && e[w] == x as usize;
        assert(is_monday(ts[e[w] as int]));
    }
}

proof fn lemma_monthly_last(ts: Seq<i64>, k: nat)
    requires
        0 < k <= ts.len(),
        forall|i: int|
            0 <= i < ts.len() ==> ((#[trigger] utc_date_spec(ts[i])) matches Some((y, m, d, w))
                && m >= 1),
    ensures
        ({
            let (y, m, d, w) = utc_date_spec(ts[k - 1]).unwrap();
            monthly_scan(ts, k).1 == (y, m)
        }),
    decreases k,
{
    assert(utc_date_spec(ts[k - 1]) is Some);
    if k > 1 {
        lemma_monthly_last(ts, (k - 1) as nat);
    }
}

/// Law: when every candle has a calendar date, a candle is a monthly entry exactly when it
/// is the first candle or its month differs from that of the candle before it.
pub proof fn lemma_monthly_entries_first_of_month(ts: Seq<i64>, k: nat, x: int)
    requires
        k <= ts.len(),
        ts.len() <= usize::MAX,
        0 <= x < k,
        forall|i: int|
            0 <= i < ts.len() ==> ((#[trigger] utc_date_spec(ts[i])) matches Some((y, m, d, w))
                && m >= 1),
    ensures
        monthly_scan(ts, k).0.contains(x as usize) <==> (x == 0 || {
            let (y0, m0, d0, w0) = utc_date_spec(ts[x - 1]).unwrap();
            let (y1, m1, d1, w1) = utc_date_spec(ts[x]).unwrap();
            (y0, m0) != (y1, m1)
        }),
    decreases k,
{
    lemma_monthly_scan(ts, k);
    lemma_monthly_scan(ts, (k - 1) as nat);
    let p = monthly_scan(ts, (k - 1) as nat).0;
    let q = monthly_scan(ts, k).0;
    assert(utc_date_spec(ts[k - 1]) is Some);
    if q.len() > p.len() {
        assert(q == p.push((k - 1) as usize));
    } else {
        assert(q == p);
    }
    if x < k - 1 {
        lemma_monthly_entries_first_of_month(ts, (k - 1) as nat, x);
        if q.contains(x as usize) {
            let w = choose|w: int| 0 <= w < q.len() && q[w] == x as usize;
            if w < p.len() {
                assert(p[w] == x as usize);
            }
        }
        if p.contains(x as usize) {
            let w = choose|w: int| 0 <= w < p.len() && p[w] == x as usize;
            assert(q[w] == x as usize);
        }
    } else {
        if k >= 2 {
            lemma_monthly_last(ts, (k - 1) as nat);
        }
        if q.contains(x as usize) {
            let w = choose|w: int| 0 <= w < q.len() && q[w] == x as usize;
            if w < p.len() {
                assert(p[w] < k - 1);
            }
        }
        if q.len() > p.len() {
            assert(q[q.len() - 1] == x as usize);
        }
    }
}

} // verus!
