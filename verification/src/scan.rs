//! Decisions of one scan cycle.
use vstd::prelude::*;

verus! {

/// What a scan cycle did with the best pair it found.
#[derive(Debug, Clone, Copy, PartialEq, Eq, Structural)]
pub enum ScanDecision {
    /// No pair was found.
    NoPairs,
    /// The risk advisor asked to skip the trade.
    SkippedAi,
    /// The pair was entered with simulated orders.
    Entered,
    /// The pair was only reported.
    Scanned,
}

pub open spec fn scan_decision_spec(pairs_found: usize, skip_trade: bool, dry_run: bool) -> ScanDecision {
    if pairs_found == 0 {
        ScanDecision::NoPairs
    } else if skip_trade {
        ScanDecision::SkippedAi
    } else if dry_run {
        ScanDecision::Entered
    } else {
        ScanDecision::Scanned
    }
}

/// Decision recorded for a scan that found `pairs_found` pairs.
pub fn scan_decision(pairs_found: usize, skip_trade: bool, dry_run: bool) -> (d: ScanDecision)
    ensures
        d == scan_decision_spec(pairs_found, skip_trade, dry_run),
        pairs_found == 0 <==> d == ScanDecision::NoPairs,
        pairs_found > 0 && skip_trade <==> d == ScanDecision::SkippedAi,
        d == ScanDecision::Entered <==> pairs_found > 0 && !skip_trade && dry_run,
        d == ScanDecision::Scanned <==> pairs_found > 0 && !skip_trade && !dry_run,
{
    if pairs_found == 0 {
        ScanDecision::NoPairs
    } else if skip_trade {
        ScanDecision::SkippedAi
    } else if dry_run {
        ScanDecision::Entered
    } else {
        ScanDecision::Scanned
    }
}

/// Law: a scan with no pair records `no_pairs`; with pairs, an advisor that asks to skip
/// gives `skipped_ai` whether or not the run is a dry run; otherwise the pair is entered in
/// a dry run and only reported in a live one.
pub proof fn lemma_decision_cases(pairs_found: usize, skip_trade: bool, dry_run: bool)
    ensures
        scan_decision_spec(0, skip_trade, dry_run) == ScanDecision::NoPairs,
        pairs_found > 0 ==> scan_decision_spec(pairs_found, true, dry_run)
            == ScanDecision::SkippedAi,
        pairs_found > 0 ==> scan_decision_spec(pairs_found, true, true) == scan_decision_spec(
            pairs_found,
            true,
            false,
        ),
        pairs_found > 0 ==> scan_decision_spec(pairs_found, false, true) == ScanDecision::Entered,
        pairs_found > 0 ==> scan_decision_spec(pairs_found, false, false)
            == ScanDecision::Scanned,
{
}

pub open spec fn decision_name_spec(d: ScanDecision) -> Seq<char> {
    match d {
        ScanDecision::NoPairs => "no_pairs"@,
        ScanDecision::SkippedAi => "skipped_ai"@,
        ScanDecision::Entered => "entered"@,
        ScanDecision::Scanned => "scanned"@,
    }
}

impl ScanDecision {
    /// Name under which the decision is stored.
    pub fn as_str(&self) -> (s: &'static str)
        ensures
            s@ == decision_name_spec(*self),
    {
        match self {
            ScanDecision::NoPairs => "no_pairs",
            ScanDecision::SkippedAi => "skipped_ai",
            ScanDecision::Entered => "entered",
            ScanDecision::Scanned => "scanned",
        }
    }
}

// ── The scan loop ────────────────────────────────────────────────────────────────

/// Settings of the scan loop: seconds between scans (0: scan once), dry-run, live price
/// feed, and whether the risk advisor is available.
#[derive(Debug, Clone, Copy, PartialEq, Eq, Structural)]
pub struct ScanLoop {
    pub interval: u64,
    pub dry_run: bool,
    pub live: bool,
    pub ai_available: bool,
}

/// Outcome of the outside work of one step of a scan cycle.
#[derive(Debug, Clone, Copy, PartialEq, Eq, Structural)]
pub enum ScanEvent {
    /// The BTC price could not be fetched.
    PriceFailed,
    PriceFetched,
    /// The price was stored (and open orders settled where asked).
    PriceRecorded,
    /// The markets could not be scanned.
    PairsFailed,
    /// The scan found `count` pairs.
    PairsFound { count: usize },
    /// The cycle's results were reported and stored.
    CycleRecorded,
}

/// The outside work the scan loop asks for next.
#[derive(Debug, Clone, Copy, PartialEq, Eq, Structural)]
pub enum ScanAction {
    /// End the run with the error just met.
    Fail,
    /// Pause, then fetch the price again.
    SleepAndRetry { secs: u64 },
    /// Store the price; settle expired dry-run orders when `settle`.
    RecordPrice { settle: bool },
    /// Scan the markets for pairs.
    FindPairs,
    /// Report the cycle: enter simulated orders, ask the advisor, store a portfolio snapshot,
    /// publish the pairs' token ids to the live feed, as the flags say.
    Report { enter_orders: bool, assess_risk: bool, snapshot: bool, publish_tokens: bool },
    /// Pause, then start the next cycle.
    SleepAndScan { secs: u64 },
    /// Keep serving the last results until interrupted, then end.
    Stop,
}

/// The next step of the scan loop. With an interval of 0 a failure ends the run with its
/// error and a finished cycle stops; otherwise a failure is retried and the next cycle
/// starts after `interval` seconds. Settling, entering orders and snapshots happen only in
/// dry-run; the advisor is asked only when it is available and pairs were found.
pub open spec fn scan_step_spec(cfg: ScanLoop, e: ScanEvent) -> ScanAction {
    match e {
        ScanEvent::PriceFailed | ScanEvent::PairsFailed => if cfg.interval == 0 {
            ScanAction::Fail
        } else {
            ScanAction::SleepAndRetry { secs: cfg.interval }
        },
        ScanEvent::PriceFetched => ScanAction::RecordPrice { settle: cfg.dry_run },
        ScanEvent::PriceRecorded => ScanAction::FindPairs,
        ScanEvent::PairsFound { count } => ScanAction::Report {
            enter_orders: cfg.dry_run,
            assess_risk: cfg.ai_available && count > 0,
            snapshot: cfg.dry_run,
            publish_tokens: cfg.live,
        },
        ScanEvent::CycleRecorded => if cfg.interval == 0 {
            ScanAction::Stop
        } else {
            ScanAction::SleepAndScan { secs: cfg.interval }
        },
    }
}

/// One decision of the scan loop, from its settings and the outcome of the last step.
pub fn scan_step(cfg: &ScanLoop, e: ScanEvent) -> (a: ScanAction)
    ensures
        a == scan_step_spec(*cfg, e),
{
    match e {
        ScanEvent::PriceFailed | ScanEvent::PairsFailed => if cfg.interval == 0 {
            ScanAction::Fail
        } else {
            ScanAction::SleepAndRetry { secs: cfg.interval }
        },
        ScanEvent::PriceFetched => ScanAction::RecordPrice { settle: cfg.dry_run },
        ScanEvent::PriceRecorded => ScanAction::FindPairs,
        ScanEvent::PairsFound { count } => ScanAction::Report {
            enter_orders: cfg.dry_run,
            assess_risk: cfg.ai_available && count > 0,
            snapshot: cfg.dry_run,
            publish_tokens: cfg.live,
        },
        ScanEvent::CycleRecorded => if cfg.interval == 0 {
            ScanAction::Stop
        } else {
            ScanAction::SleepAndScan { secs: cfg.interval }
        },
    }
}

/// Law: a run with interval 0 scans once: any failure ends it with the error and a
/// finished cycle stops; with a positive interval failures are retried and cycles repeat,
/// both after `interval` seconds.
pub proof fn lemma_scan_once_or_repeat(cfg: ScanLoop)
    ensures
        cfg.interval == 0 ==> (scan_step_spec(cfg, ScanEvent::PriceFailed) == ScanAction::Fail
            && scan_step_spec(cfg, ScanEvent::PairsFailed) == ScanAction::Fail && scan_step_spec(
            cfg,
            ScanEvent::CycleRecorded,
        ) == ScanAction::Stop),
        cfg.interval > 0 ==> (scan_step_spec(cfg, ScanEvent::PriceFailed) == (
        ScanAction::SleepAndRetry { secs: cfg.interval }) && scan_step_spec(
            cfg,
            ScanEvent::PairsFailed,
        ) == (ScanAction::SleepAndRetry { secs: cfg.interval }) && scan_step_spec(
            cfg,
            ScanEvent::CycleRecorded,
        ) == (ScanAction::SleepAndScan { secs: cfg.interval })),
{
}

/// The report flags of a cycle that found `count` pairs.
pub open spec fn report_for(cfg: ScanLoop, count: usize) -> ScanAction {
    ScanAction::Report {
        enter_orders: cfg.dry_run,
        assess_risk: cfg.ai_available && count > 0,
        snapshot: cfg.dry_run,
        publish_tokens: cfg.live,
    }
}

/// Law: outside dry-run no order is settled or entered and no snapshot is stored; the
/// advisor is asked exactly when it is available and pairs were found.
pub proof fn lemma_dry_run_only(cfg: ScanLoop, count: usize)
    ensures
        scan_step_spec(cfg, ScanEvent::PriceFetched) == (ScanAction::RecordPrice {
            settle: cfg.dry_run,
        }),
        scan_step_spec(cfg, ScanEvent::PairsFound { count }) == report_for(cfg, count),
        !cfg.dry_run ==> !report_for(cfg, count)->enter_orders && !report_for(
            cfg,
            count,
        )->snapshot,
        count == 0 ==> !report_for(cfg, count)->assess_risk,
{
}

} // verus!
