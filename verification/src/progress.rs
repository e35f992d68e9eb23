use vstd::prelude::*;

verus! {

/// The smallest step, in percent, between two progress reports.
pub const REPORT_STEP: u64 = 5;

/// The whole percent of `total` that `done` amounts to, rounded down, and
/// no more than a `u64` holds.
pub open spec fn percent_of(done: u64, total: u64) -> int {
    let whole = (done as int * 100) / (total as int);
    if whole > u64::MAX {
        u64::MAX as int
    } else {
        whole
    }
}

/// The pace of a transfer in whole percent.
pub fn percent(done: u64, total: u64) -> (r: u64)
    requires
        0 < total,
    ensures
        r == percent_of(done, total),
        done <= total ==> r <= 100,
{
    let scaled: u128 = (done as u128) * 100;
    let whole: u128 = scaled / (total as u128);
    assert(done <= total ==> whole <= 100) by (nonlinear_arith)
        requires
            whole == scaled / (total as u128),
            scaled == (done as u128) * 100,
            total > 0,
    ;
    if whole > u64::MAX as u128 {
        u64::MAX
    } else {
        whole as u64
    }
}

/// Whether progress is worth a report: at completion, and whenever it has
/// grown by `REPORT_STEP` since the last report.
pub open spec fn is_due(now: u64, last: u64) -> bool {
    now >= last + REPORT_STEP || now == 100
}

/// Decides whether to report progress, given the last percentage reported.
pub fn report_due(now: u64, last: u64) -> (r: bool)
    ensures
        r == is_due(now, last),
{
    now == 100 || (last <= u64::MAX - REPORT_STEP && now >= last + REPORT_STEP)
}

/// The percentage to report after `done` of `total` bytes have arrived, where
/// `last` was reported before; `None` where no report is due or the total is
/// unknown.
pub open spec fn report_of(done: u64, total: u64, last: u64) -> Option<u64> {
    if total > 0 && is_due(percent_of(done, total) as u64, last) {
        Some(percent_of(done, total) as u64)
    } else {
        None
    }
}

/// Decides what to report after a chunk has arrived.
pub fn next_report(done: u64, total: u64, last: u64) -> (r: Option<u64>)
    ensures
        r == report_of(done, total, last),
{
    if total == 0 {
        return None;
    }
    let now = percent(done, total);
    if report_due(now, last) {
        Some(now)
    } else {
        None
    }
}

} // verus!
