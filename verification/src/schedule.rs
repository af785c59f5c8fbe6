//! Reporting-tick scheduling: drift-corrected state-report periods and the
//! calendar rules for host and IP reports.
//!
//! The state-reporting loop measures how long one report took; if it was
//! shorter than the configured tick it sleeps the remainder, otherwise it
//! proceeds at once. One iteration therefore lasts `max(interval, elapsed)`:
//! slow reports never pile up into catch-up bursts, and fast reports never
//! shorten the period.

use vstd::prelude::*;

verus! {

/// How long one loop iteration lasts when the report itself took `elapsed`
/// against a configured tick of `interval`: the larger of the two.
pub open spec fn spec_period(interval: u64, elapsed: u64) -> int {
    if elapsed < interval {
        interval as int
    } else {
        elapsed as int
    }
}

/// Time a whole run of reporting iterations takes, given each report's own
/// duration.
pub open spec fn spec_total_time(interval: u64, elapsed: Seq<u64>) -> int
    decreases elapsed.len(),
{
    if elapsed.len() == 0 {
        0
    } else {
        spec_total_time(interval, elapsed.drop_last()) + spec_period(interval, elapsed.last())
    }
}

/// How long to sleep after a report that took `elapsed_ms`: the remainder of
/// the tick, or nothing when the report overran it. The iteration as a whole
/// then lasts exactly `max(interval, elapsed)`.
pub fn tick_sleep(interval_ms: u64, elapsed_ms: u64) -> (sleep_ms: u64)
    ensures
        sleep_ms == if elapsed_ms < interval_ms {
            (interval_ms - elapsed_ms) as u64
        } else {
            0u64
        },
        elapsed_ms >= interval_ms ==> sleep_ms == 0,
        elapsed_ms + sleep_ms == spec_period(interval_ms, elapsed_ms),
{
    if elapsed_ms < interval_ms {
        interval_ms - elapsed_ms
    } else {
        0
    }
}

/// Law: over any run, the total time of the reporting loop is at most the
/// number of iterations times `max(interval, bound)`, where `bound` caps every
/// single report's duration. The average period therefore never exceeds the
/// larger of the configured tick and the slowest observed report.
pub proof fn lemma_drift_bound(interval: u64, elapsed: Seq<u64>, bound: u64)
    requires
        forall|i: int| 0 <= i < elapsed.len() ==> elapsed[i] <= bound,
    ensures
        spec_total_time(interval, elapsed) <= elapsed.len() * spec_period(interval, bound),
    decreases elapsed.len(),
{
    if elapsed.len() > 0 {
        let n = elapsed.len() as int;
        let p = spec_period(interval, bound);
        lemma_drift_bound(interval, elapsed.drop_last(), bound);
        assert(spec_period(interval, elapsed.last()) <= p);
        assert((n - 1) * p + p == n * p) by (nonlinear_arith);
    }
}

/// What happens right at startup: the host is always described once, and the
/// public IP is reported once too when the host-report interval is the
/// "once only" sentinel 0.
pub struct StartupPlan {
    /// Send one host report now. Always set: the host is described at startup.
    pub report_host: bool,
    /// Send one IP report now.
    pub report_ip: bool,
}

/// Decides the startup reports from the configured host-report interval.
pub fn startup_plan(host_report_interval: u64) -> (r: StartupPlan)
    ensures
        r.report_host,
        r.report_ip == (host_report_interval == 0),
{
    StartupPlan { report_host: true, report_ip: host_report_interval == 0 }
}

/// Whether a periodic IP report is due at `now_secs` (epoch seconds): the
/// configured hour-granularity interval is nonzero and the timestamp falls on
/// a whole multiple of it. A zero interval means the IP is only ever reported
/// once, at startup.
pub fn ip_report_due(ip_report_interval_hours: u64, now_secs: u64) -> (r: bool)
    requires
        ip_report_interval_hours <= 0xffff_ffff,
    ensures
        r == (ip_report_interval_hours != 0 && now_secs as int % (ip_report_interval_hours * 3600)
            == 0),
{
    if ip_report_interval_hours == 0 {
        false
    } else {
        proof {
            assert(ip_report_interval_hours * 3600 <= 0xffff_ffff * 3600) by (nonlinear_arith)
                requires
                    ip_report_interval_hours <= 0xffff_ffff,
            ;
        }
        let period_secs: u64 = ip_report_interval_hours * 3600;
        now_secs % period_secs == 0
    }
}

} // verus!
