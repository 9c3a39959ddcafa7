//! Site timing from wallet payouts: gaps, breaks, durations, the session
//! totals and hourly buckets.
//!
//! Averages and ISK-per-hour rates are ratios of the integer totals kept here
//! (`time_spent_seconds / timed_sites`, and so on); the caller computes them.

use vstd::prelude::*;
use crate::clock::{valid_ts, MAX_TS, MIN_TS};
use crate::vanguard_payouts::SpaceBand;
use crate::wallet_parse::{payouts_view, WalletPayout, WalletPayoutView};

verus! {

/// Session settings for one wallet analysis (the ISK-per-LP rate is a float
/// and is kept by the caller).
#[derive(Debug, Clone, Copy, PartialEq, Eq, Structural)]
pub struct RunSettings {
    pub space: SpaceBand,
    pub fleet_size: u32,
    pub expected_isk: i64,
    pub lp_per_char: i64,
    /// Minutes; gaps strictly greater than this are breaks.
    pub break_threshold_minutes: u32,
    /// UTC seconds.
    pub run_start: Option<i64>,
}

/// Session settings before any are set: low/null-sec, a fleet of 15,
/// 15M ISK per site, 2,000 LP per character, breaks over 25 minutes, no run
/// start.
pub open spec fn default_run_settings() -> RunSettings {
    RunSettings {
        space: SpaceBand::LowNull,
        fleet_size: 15,
        expected_isk: 15_000_000,
        lp_per_char: 2_000,
        break_threshold_minutes: 25,
        run_start: None,
    }
}

impl Default for RunSettings {
    fn default() -> (r: Self)
        ensures
            r == default_run_settings(),
    {
        RunSettings {
            space: SpaceBand::LowNull,
            fleet_size: 15,
            expected_isk: 15_000_000,
            lp_per_char: 2_000,
            break_threshold_minutes: 25,
            run_start: None,
        }
    }
}

#[derive(Debug, Clone, Copy, PartialEq, Eq, Structural)]
pub struct SiteDetail {
    pub occurred_at: i64,
    pub amount_isk: i64,
    pub fleet_lp: i64,
    pub gap_seconds: Option<i64>,
    pub duration_seconds: Option<i64>,
    pub is_break: bool,
    pub counts_toward_avg: bool,
}

/// Totals for one clock hour (UTC).
#[derive(Debug, Clone, Copy, PartialEq, Eq, Structural)]
pub struct HourlyBucket {
    pub hour_start: i64,
    pub total_isk: i64,
    pub total_lp: i64,
    pub sites: u32,
    /// Sum and number of the durations that count toward the average.
    pub timed_seconds: i64,
    pub timed_sites: u64,
}

#[derive(Debug, Clone, Copy, PartialEq, Eq, Structural)]
pub struct SessionSummary {
    pub sites_ran: u32,
    pub time_spent_seconds: i64,
    pub timed_sites: u64,
    pub liquid_isk: i64,
    pub net_lp: i64,
}

#[derive(Debug, Clone)]
pub struct AnalyticsReport {
    pub session: SessionSummary,
    pub hourly: Vec<HourlyBucket>,
    pub sites: Vec<SiteDetail>,
}

/// A gap's (gap, duration, is_break, counts_toward_avg).
pub open spec fn gap_fields(gap: i64, break_secs: int) -> (
    Option<i64>,
    Option<i64>,
    bool,
    bool,
) {
    let is_break = gap > break_secs;
    (Some(gap), if is_break {
        None
    } else {
        Some(gap)
    }, is_break, !is_break)
}

pub open spec fn fleet_lp_of(s: RunSettings) -> int {
    s.lp_per_char * s.fleet_size
}

/// The detail of payout `i`: its gap is from the previous payout, or from the
/// run start for the first one (when the run start is not after it).
pub open spec fn detail_of(events: Seq<WalletPayoutView>, i: int, s: RunSettings) -> SiteDetail {
    let ev = events[i];
    let break_secs = s.break_threshold_minutes * 60;
    let (gap, duration, is_break, counts) = if i == 0 {
        match s.run_start {
            Some(start) => if start <= ev.occurred_at {
                gap_fields((ev.occurred_at - start) as i64, break_secs)
            } else {
                (None, None, false, false)
            },
            None => (None, None, false, false),
        }
    } else {
        gap_fields((ev.occurred_at - events[i - 1].occurred_at) as i64, break_secs)
    };
    SiteDetail {
        occurred_at: ev.occurred_at,
        amount_isk: ev.amount_isk,
        fleet_lp: fleet_lp_of(s) as i64,
        gap_seconds: gap,
        duration_seconds: duration,
        is_break: is_break,
        counts_toward_avg: counts,
    }
}

pub open spec fn details_of(events: Seq<WalletPayoutView>, s: RunSettings) -> Seq<SiteDetail> {
    Seq::new(events.len(), |i: int| detail_of(events, i, s))
}

/// The duration a site adds to timed totals, if it counts.
pub open spec fn timed_of(d: SiteDetail) -> Option<int> {
    if d.counts_toward_avg {
        match d.duration_seconds {
            Some(x) => Some(x as int),
            None => None,
        }
    } else {
        None
    }
}

pub open spec fn sum_isk(s: Seq<SiteDetail>) -> int
    decreases s.len(),
{
    if s.len() == 0 {
        0
    } else {
        sum_isk(s.drop_last()) + s.last().amount_isk
    }
}

pub open spec fn sum_lp(s: Seq<SiteDetail>) -> int
    decreases s.len(),
{
    if s.len() == 0 {
        0
    } else {
        sum_lp(s.drop_last()) + s.last().fleet_lp
    }
}

pub open spec fn sum_timed(s: Seq<SiteDetail>) -> int
    decreases s.len(),
{
    if s.len() == 0 {
        0
    } else {
        sum_timed(s.drop_last()) + match timed_of(s.last()) {
            Some(x) => x,
            None => 0,
        }
    }
}

pub open spec fn count_timed(s: Seq<SiteDetail>) -> nat
    decreases s.len(),
{
    if s.len() == 0 {
        0
    } else {
        count_timed(s.drop_last()) + if timed_of(s.last()) is Some {
            1nat
        } else {
            0nat
        }
    }
}

/// `x` fits in `i64`.
pub open spec fn in_i64(x: int) -> bool {
    i64::MIN <= x <= i64::MAX
}

/// Every running total of `s`, added up in order as the report does (ISK,
/// fleet LP, counted durations), fits in `i64`.
pub open spec fn sums_fit(s: Seq<SiteDetail>) -> bool
    decreases s.len(),
{
    s.len() == 0 || (sums_fit(s.drop_last()) && in_i64(sum_isk(s)) && in_i64(sum_lp(s)) && in_i64(
        sum_timed(s),
    ))
}

/// The running totals of the session and of every clock hour fit in `i64`:
/// exactly the inputs on which no total overflows.
pub open spec fn running_totals_fit(s: Seq<SiteDetail>) -> bool {
    &&& sums_fit(s)
    &&& forall|h: int| #[trigger] sums_fit(in_hour(s, h))
}

/// The session totals of `sites`.
pub open spec fn summary_of(s: Seq<SiteDetail>) -> SessionSummary {
    SessionSummary {
        sites_ran: s.len() as u32,
        time_spent_seconds: sum_timed(s) as i64,
        timed_sites: count_timed(s) as u64,
        liquid_isk: sum_isk(s) as i64,
        net_lp: sum_lp(s) as i64,
    }
}

/// Start of the UTC clock hour holding `t`.
pub open spec fn hour_of(t: int) -> int {
    t - t % 3600
}

/// The sites in hour `h`, in order.
pub open spec fn in_hour(s: Seq<SiteDetail>, h: int) -> Seq<SiteDetail>
    decreases s.len(),
{
    if s.len() == 0 {
        seq![]
    } else if hour_of(s.last().occurred_at as int) == h {
        in_hour(s.drop_last(), h).push(s.last())
    } else {
        in_hour(s.drop_last(), h)
    }
}

/// The bucket of hour `h`.
pub open spec fn bucket_of(s: Seq<SiteDetail>, h: int) -> HourlyBucket {
    let g = in_hour(s, h);
    HourlyBucket {
        hour_start: h as i64,
        total_isk: sum_isk(g) as i64,
        total_lp: sum_lp(g) as i64,
        sites: g.len() as u32,
        timed_seconds: sum_timed(g) as i64,
        timed_sites: count_timed(g) as u64,
    }
}

/// Some site of `s` is in hour `h`.
pub open spec fn hour_has_site(s: Seq<SiteDetail>, h: int) -> bool {
    exists|i: int| 0 <= i < s.len() && hour_of((#[trigger] s[i]).occurred_at as int) == h
}

/// Some bucket of `b` starts at `h`.
pub open spec fn hour_listed(b: Seq<HourlyBucket>, h: int) -> bool {
    exists|k: int| 0 <= k < b.len() && (#[trigger] b[k]).hour_start == h
}

/// One bucket per hour that has a site, in hour order.
pub open spec fn hourly_ok(s: Seq<SiteDetail>, b: Seq<HourlyBucket>) -> bool {
    &&& forall|i: int, j: int| 0 <= i < j < b.len() ==> (#[trigger] b[i]).hour_start < (
    #[trigger] b[j]).hour_start
    &&& forall|k: int| 0 <= k < b.len() ==> #[trigger] b[k] == bucket_of(s, b[k].hour_start as int)
    &&& forall|k: int| 0 <= k < b.len() ==> hour_has_site(s, (#[trigger] b[k]).hour_start as int)
    &&& forall|i: int|
        0 <= i < s.len() ==> hour_listed(b, hour_of((#[trigger] s[i]).occurred_at as int))
}

/// Sites whose times `chrono` can hold and whose running totals fit in
/// `i64`.
pub open spec fn sites_ok(s: Seq<SiteDetail>) -> bool {
    &&& forall|i: int| 0 <= i < s.len() ==> valid_ts((#[trigger] s[i]).occurred_at as int)
    &&& running_totals_fit(s)
}

/// Totals that fit at every step fit at the end.
pub proof fn lemma_sums_fit_total(s: Seq<SiteDetail>)
    requires
        sums_fit(s),
    ensures
        in_i64(sum_isk(s)),
        in_i64(sum_lp(s)),
        in_i64(sum_timed(s)),
{
}

/// A prefix of sites whose running totals fit has running totals that fit.
pub proof fn lemma_sums_fit_prefix(s: Seq<SiteDetail>, k: int)
    requires
        sums_fit(s),
        0 <= k <= s.len(),
    ensures
        sums_fit(s.take(k)),
    decreases s.len() - k,
{
    if k < s.len() {
        lemma_sums_fit_prefix(s, k + 1);
        assert(s.take(k + 1).drop_last() =~= s.take(k));
    } else {
        assert(s.take(k) =~= s);
    }
}

/// The same for the sites of one hour among a prefix.
pub proof fn lemma_sums_fit_hour_prefix(s: Seq<SiteDetail>, k: int, h: int)
    requires
        sums_fit(in_hour(s, h)),
        0 <= k <= s.len(),
    ensures
        sums_fit(in_hour(s.take(k), h)),
    decreases s.len() - k,
{
    if k < s.len() {
        lemma_sums_fit_hour_prefix(s, k + 1, h);
        let q = s.take(k + 1);
        assert(q.drop_last() =~= s.take(k));
        if hour_of(q.last().occurred_at as int) == h {
            assert(in_hour(q, h).drop_last() =~= in_hour(s.take(k), h));
        }
    } else {
        assert(s.take(k) =~= s);
    }
}

/// No site in hour `h`: the hour is empty.
proof fn lemma_in_hour_empty(s: Seq<SiteDetail>, h: int)
    requires
        forall|i: int| 0 <= i < s.len() ==> hour_of((#[trigger] s[i]).occurred_at as int) != h,
    ensures
        in_hour(s, h).len() == 0,
    decreases s.len(),
{
    if s.len() > 0 {
        let p = s.drop_last();
        assert forall|i: int| 0 <= i < p.len() implies hour_of((#[trigger] p[i]).occurred_at as int) != h by {
            assert(p[i] == s[i]);
        }
        lemma_in_hour_empty(p, h);
        assert(s[s.len() - 1] == s.last());
    }
}

/// Counts of the timed sites and of an hour's sites.
pub proof fn lemma_counts_bounded(s: Seq<SiteDetail>, h: int)
    ensures
        count_timed(s) <= s.len(),
        count_timed(in_hour(s, h)) <= in_hour(s, h).len() <= s.len(),
    decreases s.len(),
{
    if s.len() > 0 {
        let p = s.drop_last();
        lemma_counts_bounded(p, h);
        if hour_of(s.last().occurred_at as int) == h {
            assert(in_hour(s, h).drop_last() =~= in_hour(p, h));
        }
    }
}

/// The timed duration of `d`, if it counts.
fn timed_exec(d: &SiteDetail) -> (r: Option<i64>)
    ensures
        match r {
            Some(x) => timed_of(*d) == Some(x as int),
            None => timed_of(*d) is None,
        },
{
    if d.counts_toward_avg {
        d.duration_seconds
    } else {
        None
    }
}

/// Hour start of `t`.
pub fn hour_floor(t: i64) -> (r: i64)
    requires
        valid_ts(t as int),
    ensures
        r == hour_of(t as int),
        valid_ts(r as int) || r < t,
{
    let shifted = (t as i128 + 8_640_000_000_000i128) as u64;
    let rem = (shifted % 3600) as i64;
    assert(rem == (t as int) % 3600) by (nonlinear_arith)
        requires
            shifted == t + 8_640_000_000_000,
            rem == shifted % 3600,
            8_640_000_000_000 == 2_400_000_000 * 3600,
    ;
    t - rem
}

/// Session totals of `sites`.
pub fn summarize(sites: &Vec<SiteDetail>) -> (r: SessionSummary)
    requires
        sites_ok(sites@),
    ensures
        r == summary_of(sites@),
{
    let mut isk: i64 = 0;
    let mut lp: i64 = 0;
    let mut timed: i64 = 0;
    let mut count: u64 = 0;
    let mut i: usize = 0;
    while i < sites.len()
        invariant
            0 <= i <= sites@.len(),
            sites_ok(sites@),
            isk == sum_isk(sites@.take(i as int)),
            lp == sum_lp(sites@.take(i as int)),
            timed == sum_timed(sites@.take(i as int)),
            count == count_timed(sites@.take(i as int)),
        decreases sites@.len() - i,
    {
        let ghost p = sites@.take(i as int);
        let ghost q = sites@.take(i + 1);
        assert(q.drop_last() =~= p);
        assert(q.last() == sites@[i as int]);
        proof {
            lemma_sums_fit_prefix(sites@, i + 1);
            lemma_counts_bounded(q, 0);
        }
        let d = &sites[i];
        isk = isk + d.amount_isk;
        lp = lp + d.fleet_lp;
        match timed_exec(d) {
            Some(x) => {
                timed = timed + x;
                count = count + 1;
            },
            None => {},
        }
        i = i + 1;
    }
    assert(sites@.take(sites@.len() as int) =~= sites@);
    SessionSummary {
        sites_ran: sites.len() as u32,
        time_spent_seconds: timed,
        timed_sites: count,
        liquid_isk: isk,
        net_lp: lp,
    }
}

/// `hs` is strictly increasing.
#[verifier::opaque]
pub open spec fn hours_sorted(hs: Seq<i64>) -> bool {
    forall|a: int, b: int| 0 <= a < b < hs.len() ==> (#[trigger] hs[a]) < (#[trigger] hs[b])
}

/// Every hour in `hs` is the hour of one of the first `n` sites.
#[verifier::opaque]
pub open spec fn hours_from(hs: Seq<i64>, s: Seq<SiteDetail>, n: int) -> bool {
    forall|k: int|
        0 <= k < hs.len() ==> exists|j: int|
            0 <= j < n && hour_of((#[trigger] s[j]).occurred_at as int) == #[trigger] hs[k]
}

/// The hour of each of the first `n` sites is in `hs`.
#[verifier::opaque]
pub open spec fn hours_cover(hs: Seq<i64>, s: Seq<SiteDetail>, n: int) -> bool {
    forall|j: int|
        0 <= j < n ==> exists|k: int|
            0 <= k < hs.len() && #[trigger] hs[k] == hour_of((#[trigger] s[j]).occurred_at as int)
}

proof fn lemma_hour_found(hs: Seq<i64>, s: Seq<SiteDetail>, n: int, k: int)
    requires
        hours_from(hs, s, n),
        hours_cover(hs, s, n),
        0 <= n < s.len(),
        0 <= k < hs.len(),
        hs[k] == hour_of(s[n].occurred_at as int),
    ensures
        hours_from(hs, s, n + 1),
        hours_cover(hs, s, n + 1),
{
    reveal(hours_from);
    reveal(hours_cover);
    assert forall|m: int| 0 <= m < hs.len() implies exists|j: int|
        0 <= j < n + 1 && hour_of((#[trigger] s[j]).occurred_at as int) == #[trigger] hs[m] by {
        let j0 = choose|j0: int|
            0 <= j0 < n && hour_of((#[trigger] s[j0]).occurred_at as int) == #[trigger] hs[m];
    }
}

proof fn lemma_insert_sorted(hs: Seq<i64>, k: int, h: i64)
    requires
        hours_sorted(hs),
        0 <= k <= hs.len(),
        forall|j: int| 0 <= j < k ==> hs[j] < h,
        k < hs.len() ==> hs[k] > h,
    ensures
        hours_sorted(hs.insert(k, h)),
{
    reveal(hours_sorted);
    let nh = hs.insert(k, h);
    assert forall|a: int, b: int| 0 <= a < b < nh.len() implies (#[trigger] nh[a]) < (
    #[trigger] nh[b]) by {
        if b < k {
            assert(nh[a] == hs[a] && nh[b] == hs[b]);
        } else if b == k {
            assert(nh[a] == hs[a]);
        } else if a == k {
            assert(nh[b] == hs[b - 1]);
            if b - 1 > k {
                assert(hs[k] < hs[b - 1]);
            }
        } else if a < k {
            assert(nh[a] == hs[a] && nh[b] == hs[b - 1]);
        } else {
            assert(nh[a] == hs[a - 1] && nh[b] == hs[b - 1]);
        }
    }
}

proof fn lemma_insert_from(hs: Seq<i64>, s: Seq<SiteDetail>, n: int, k: int, h: i64)
    requires
        hours_from(hs, s, n),
        0 <= n < s.len(),
        0 <= k <= hs.len(),
        h == hour_of(s[n].occurred_at as int),
    ensures
        hours_from(hs.insert(k, h), s, n + 1),
{
    reveal(hours_from);
    let nh = hs.insert(k, h);
    assert forall|m: int| 0 <= m < nh.len() implies exists|j: int|
        0 <= j < n + 1 && hour_of((#[trigger] s[j]).occurred_at as int) == #[trigger] nh[m] by {
        if m < k {
            assert(nh[m] == hs[m]);
            let j0 = choose|j0: int|
                0 <= j0 < n && hour_of((#[trigger] s[j0]).occurred_at as int) == #[trigger] hs[m];
        } else if m == k {
            assert(hour_of(s[n].occurred_at as int) == nh[m]);
        } else {
            assert(nh[m] == hs[m - 1]);
            let j0 = choose|j0: int|
                0 <= j0 < n && hour_of((#[trigger] s[j0]).occurred_at as int) == #[trigger] hs[m
                    - 1];
        }
    }
}

proof fn lemma_insert_cover(hs: Seq<i64>, s: Seq<SiteDetail>, n: int, k: int, h: i64)
    requires
        hours_cover(hs, s, n),
        0 <= n < s.len(),
        0 <= k <= hs.len(),
        h == hour_of(s[n].occurred_at as int),
    ensures
        hours_cover(hs.insert(k, h), s, n + 1),
{
    reveal(hours_cover);
    let nh = hs.insert(k, h);
    assert forall|j: int| 0 <= j < n + 1 implies exists|m: int|
        0 <= m < nh.len() && #[trigger] nh[m] == hour_of((#[trigger] s[j]).occurred_at as int) by {
        if j == n {
            assert(nh[k] == h);
        } else {
            let m0 = choose|m0: int|
                0 <= m0 < hs.len() && #[trigger] hs[m0] == hour_of(
                    (#[trigger] s[j]).occurred_at as int,
                );
            if m0 < k {
                assert(nh[m0] == hs[m0]);
            } else {
                assert(nh[m0 + 1] == hs[m0]);
            }
        }
    }
}

/// Sorted distinct hours of `sites`.
fn distinct_hours(sites: &Vec<SiteDetail>) -> (r: Vec<i64>)
    requires
        forall|i: int| 0 <= i < sites@.len() ==> valid_ts((#[trigger] sites@[i]).occurred_at as int),
    ensures
        hours_sorted(r@),
        hours_from(r@, sites@, sites@.len() as int),
        hours_cover(r@, sites@, sites@.len() as int),
{
    let mut hours: Vec<i64> = Vec::new();
    let mut i: usize = 0;
    proof {
        reveal(hours_sorted);
        reveal(hours_from);
        reveal(hours_cover);
    }
    while i < sites.len()
        invariant
            0 <= i <= sites@.len(),
            forall|i: int| 0 <= i < sites@.len() ==> valid_ts((#[trigger] sites@[i]).occurred_at as int),
            hours_sorted(hours@),
            hours_from(hours@, sites@, i as int),
            hours_cover(hours@, sites@, i as int),
        decreases sites@.len() - i,
    {
        assert(valid_ts(sites@[i as int].occurred_at as int));
        let h = hour_floor(sites[i].occurred_at);
        let mut k: usize = 0;
        while k < hours.len() && hours[k] < h
            invariant
                0 <= k <= hours@.len(),
                forall|j: int| 0 <= j < k ==> hours@[j] < h,
            decreases hours@.len() - k,
        {
            k = k + 1;
        }
        proof {
            if k < hours@.len() && hours@[k as int] != h {
                assert(hours@[k as int] > h);
            }
        }
        if k < hours.len() && hours[k] == h {
            proof {
                lemma_hour_found(hours@, sites@, i as int, k as int);
            }
        } else {
            proof {
                lemma_insert_sorted(hours@, k as int, h);
                lemma_insert_from(hours@, sites@, i as int, k as int, h);
                lemma_insert_cover(hours@, sites@, i as int, k as int, h);
            }
            hours.insert(k, h);
        }
        i = i + 1;
    }
    hours
}

/// The bucket of hour `h`.
fn bucket_for(sites: &Vec<SiteDetail>, h: i64) -> (r: HourlyBucket)
    requires
        sites_ok(sites@),
    ensures
        r == bucket_of(sites@, h as int),
{
    let mut isk: i64 = 0;
    let mut lp: i64 = 0;
    let mut timed: i64 = 0;
    let mut count: u64 = 0;
    let mut n: usize = 0;
    let mut i: usize = 0;
    while i < sites.len()
        invariant
            0 <= i <= sites@.len(),
            sites_ok(sites@),
            isk == sum_isk(in_hour(sites@.take(i as int), h as int)),
            lp == sum_lp(in_hour(sites@.take(i as int), h as int)),
            timed == sum_timed(in_hour(sites@.take(i as int), h as int)),
            count == count_timed(in_hour(sites@.take(i as int), h as int)),
            n == in_hour(sites@.take(i as int), h as int).len(),
        decreases sites@.len() - i,
    {
        let ghost p = sites@.take(i as int);
        let ghost q = sites@.take(i + 1);
        assert(q.drop_last() =~= p);
        assert(q.last() == sites@[i as int]);
        proof {
            assert(sums_fit(in_hour(sites@, h as int)));
            lemma_sums_fit_hour_prefix(sites@, i + 1, h as int);
            lemma_counts_bounded(q, h as int);
        }
        let d = &sites[i];
        let dh = hour_floor(d.occurred_at);
        if dh == h {
            let ghost g = in_hour(p, h as int);
            assert(in_hour(q, h as int) == g.push(*d));
            assert(g.push(*d).drop_last() =~= g);
            isk = isk + d.amount_isk;
            lp = lp + d.fleet_lp;
            match timed_exec(d) {
                Some(x) => {
                    timed = timed + x;
                    count = count + 1;
                },
                None => {},
            }
            n = n + 1;
        }
        i = i + 1;
    }
    assert(sites@.take(sites@.len() as int) =~= sites@);
    HourlyBucket {
        hour_start: h,
        total_isk: isk,
        total_lp: lp,
        sites: n as u32,
        timed_seconds: timed,
        timed_sites: count,
    }
}

proof fn lemma_buckets_from(s: Seq<SiteDetail>, hours: Seq<i64>, out: Seq<HourlyBucket>)
    requires
        hours_from(hours, s, s.len() as int),
        out.len() == hours.len(),
        forall|m: int| 0 <= m < out.len() ==> (#[trigger] out[m]).hour_start == hours[m],
    ensures
        forall|k: int| 0 <= k < out.len() ==> hour_has_site(s, (#[trigger] out[k]).hour_start as int),
{
    reveal(hours_from);
    assert forall|k: int| 0 <= k < out.len() implies hour_has_site(
        s,
        (#[trigger] out[k]).hour_start as int,
    ) by {
        assert(out[k].hour_start == hours[k]);
        let j0 = choose|j0: int|
            0 <= j0 < s.len() && hour_of((#[trigger] s[j0]).occurred_at as int) == #[trigger] hours[k];
        assert(hour_of(s[j0].occurred_at as int) == out[k].hour_start);
    }
}

proof fn lemma_buckets_cover(s: Seq<SiteDetail>, hours: Seq<i64>, out: Seq<HourlyBucket>)
    requires
        hours_cover(hours, s, s.len() as int),
        out.len() == hours.len(),
        forall|m: int| 0 <= m < out.len() ==> (#[trigger] out[m]).hour_start == hours[m],
    ensures
        forall|i: int|
            0 <= i < s.len() ==> hour_listed(out, hour_of((#[trigger] s[i]).occurred_at as int)),
{
    reveal(hours_cover);
    assert forall|i: int| 0 <= i < s.len() implies hour_listed(
        out,
        hour_of((#[trigger] s[i]).occurred_at as int),
    ) by {
        let m = choose|m: int|
            0 <= m < hours.len() && #[trigger] hours[m] == hour_of(
                (#[trigger] s[i]).occurred_at as int,
            );
        assert(out[m].hour_start == hours[m]);
        assert(out[m].hour_start == hour_of(s[i].occurred_at as int));
    }
}

proof fn lemma_buckets_ok(s: Seq<SiteDetail>, hours: Seq<i64>, out: Seq<HourlyBucket>)
    requires
        hours_sorted(hours),
        hours_from(hours, s, s.len() as int),
        hours_cover(hours, s, s.len() as int),
        out.len() == hours.len(),
        forall|m: int| 0 <= m < out.len() ==> (#[trigger] out[m]) == bucket_of(s, hours[m] as int),
    ensures
        hourly_ok(s, out),
{
    assert forall|m: int| 0 <= m < out.len() implies (#[trigger] out[m]).hour_start == hours[m] by {}
    lemma_buckets_from(s, hours, out);
    lemma_buckets_cover(s, hours, out);
    reveal(hours_sorted);
    assert forall|a: int, b: int| 0 <= a < b < out.len() implies (#[trigger] out[a]).hour_start < (
    #[trigger] out[b]).hour_start by {
        assert(out[a].hour_start == hours[a]);
        assert(out[b].hour_start == hours[b]);
    }
    assert forall|k: int| 0 <= k < out.len() implies #[trigger] out[k] == bucket_of(
        s,
        out[k].hour_start as int,
    ) by {
        assert(out[k].hour_start == hours[k]);
    }
}

/// One bucket per clock hour that has a site, in hour order.
pub fn hourly_buckets(sites: &Vec<SiteDetail>) -> (r: Vec<HourlyBucket>)
    requires
        sites_ok(sites@),
    ensures
        hourly_ok(sites@, r@),
{
    let hours = distinct_hours(sites);
    let mut out: Vec<HourlyBucket> = Vec::new();
    let mut k: usize = 0;
    while k < hours.len()
        invariant
            0 <= k <= hours@.len(),
            sites_ok(sites@),
            out@.len() == k,
            forall|m: int| 0 <= m < k ==> (#[trigger] out@[m]) == bucket_of(sites@, hours@[m] as int),
        decreases hours@.len() - k,
    {
        let b = bucket_for(sites, hours[k]);
        out.push(b);
        k = k + 1;
    }
    proof {
        lemma_buckets_ok(sites@, hours@, out@);
    }
    out
}

/// What `build_report` needs: times `chrono` can hold, a fleet LP per site
/// that fits in `i64`, and running totals (session and hourly) that fit.
pub open spec fn report_inputs_ok(events: Seq<WalletPayoutView>, settings: RunSettings) -> bool {
    &&& detail_inputs_ok(events, settings)
    &&& running_totals_fit(details_of(events, settings))
}

/// Payout times and the run start are times `chrono` can hold, and the
/// fleet's LP per site fits in `i64`.
pub open spec fn detail_inputs_ok(events: Seq<WalletPayoutView>, settings: RunSettings) -> bool {
    &&& forall|i: int| 0 <= i < events.len() ==> valid_ts((#[trigger] events[i]).occurred_at as int)
    &&& settings.run_start matches Some(t) ==> valid_ts(t as int)
    &&& i64::MIN <= fleet_lp_of(settings) <= i64::MAX
}

/// The timed site details of payout events (in time order).
pub fn site_details(events: &Vec<WalletPayout>, settings: &RunSettings) -> (r: Vec<SiteDetail>)
    requires
        detail_inputs_ok(payouts_view(events@), *settings),
    ensures
        r@ == details_of(payouts_view(events@), *settings),
{
    let ghost ev = payouts_view(events@);
    let break_secs: i64 = settings.break_threshold_minutes as i64 * 60;
    let fleet_lp = settings.lp_per_char * settings.fleet_size as i64;
    let mut sites: Vec<SiteDetail> = Vec::new();
    let mut i: usize = 0;
    while i < events.len()
        invariant
            0 <= i <= events@.len(),
            ev == payouts_view(events@),
            detail_inputs_ok(ev, *settings),
            break_secs == settings.break_threshold_minutes * 60,
            fleet_lp == fleet_lp_of(*settings),
            sites@ =~= details_of(ev, *settings).take(i as int),
        decreases events@.len() - i,
    {
        let ev_i = &events[i];
        assert(ev[i as int] == ev_i@);
        let (gap, duration, is_break, counts) = if i == 0 {
            match settings.run_start {
                Some(start) => if start <= ev_i.occurred_at {
                    let gap = ev_i.occurred_at - start;
                    let is_break = gap > break_secs;
                    (Some(gap), if is_break {
                        None
                    } else {
                        Some(gap)
                    }, is_break, !is_break)
                } else {
                    (None, None, false, false)
                },
                None => (None, None, false, false),
            }
        } else {
            assert(ev[i - 1] == events@[i - 1]@);
            let gap = ev_i.occurred_at - events[i - 1].occurred_at;
            let is_break = gap > break_secs;
            (Some(gap), if is_break {
                None
            } else {
                Some(gap)
            }, is_break, !is_break)
        };
        let d = SiteDetail {
            occurred_at: ev_i.occurred_at,
            amount_isk: ev_i.amount_isk,
            fleet_lp,
            gap_seconds: gap,
            duration_seconds: duration,
            is_break,
            counts_toward_avg: counts,
        };
        assert(d == detail_of(ev, i as int, *settings));
        sites.push(d);
        i = i + 1;
    }
    assert(details_of(ev, *settings).take(events@.len() as int) =~= details_of(ev, *settings));
    sites
}

/// Build timed site details and totals from payout events (in time order).
pub fn build_report(events: &Vec<WalletPayout>, settings: &RunSettings) -> (r: AnalyticsReport)
    requires
        report_inputs_ok(payouts_view(events@), *settings),
    ensures
        r.sites@ == details_of(payouts_view(events@), *settings),
        r.session == summary_of(r.sites@),
        hourly_ok(r.sites@, r.hourly@),
{
    let sites = site_details(events, settings);
    assert(sites_ok(sites@));
    let session = summarize(&sites);
    let hourly = hourly_buckets(&sites);
    AnalyticsReport { session, hourly, sites }
}

/// All of `t` (`None`), or its sites in one hour.
pub open spec fn picked(hour: Option<i64>, t: Seq<SiteDetail>) -> Seq<SiteDetail> {
    match hour {
        Some(h) => in_hour(t, h as int),
        None => t,
    }
}

/// Whether the running totals of `sites` fit (all sites when `hour` is
/// `None`, else the sites of that hour).
fn sums_fit_exec(sites: &Vec<SiteDetail>, hour: Option<i64>) -> (r: bool)
    requires
        forall|i: int| 0 <= i < sites@.len() ==> valid_ts((#[trigger] sites@[i]).occurred_at as int),
    ensures
        r == sums_fit(picked(hour, sites@)),
{
    let ghost s = sites@;
    let mut isk: i128 = 0;
    let mut lp: i128 = 0;
    let mut timed: i128 = 0;
    let mut i: usize = 0;
    proof {
        assert(s.take(0) =~= Seq::<SiteDetail>::empty());
        assert(picked(hour, s.take(0)).len() == 0);
    }
    while i < sites.len()
        invariant
            0 <= i <= s.len(),
            s == sites@,
            forall|i: int| 0 <= i < sites@.len() ==> valid_ts((#[trigger] sites@[i]).occurred_at as int),
            sums_fit(picked(hour, s.take(i as int))),
            isk == sum_isk(picked(hour, s.take(i as int))),
            lp == sum_lp(picked(hour, s.take(i as int))),
            timed == sum_timed(picked(hour, s.take(i as int))),
        decreases s.len() - i,
    {
        let ghost p = s.take(i as int);
        let ghost q = s.take(i + 1);
        assert(q.drop_last() =~= p);
        assert(q.last() == s[i as int]);
        proof {
            lemma_sums_fit_total(picked(hour, p));
        }
        let d = &sites[i];
        let counts = match hour {
            Some(h) => hour_floor(d.occurred_at) == h,
            None => true,
        };
        if counts {
            proof {
                match hour {
                    Some(h) => assert(in_hour(q, h as int) == in_hour(p, h as int).push(*d)),
                    None => {},
                }
                assert(picked(hour, q).drop_last() =~= picked(hour, p));
                assert(picked(hour, q).last() == *d);
            }
            isk = isk + d.amount_isk as i128;
            lp = lp + d.fleet_lp as i128;
            match timed_exec(d) {
                Some(x) => {
                    timed = timed + x as i128;
                },
                None => {},
            }
            if isk < i64::MIN as i128 || isk > i64::MAX as i128 || lp < i64::MIN as i128 || lp > i64::MAX as i128
                || timed < i64::MIN as i128 || timed > i64::MAX as i128 {
                proof {
                    assert(!sums_fit(picked(hour, q)));
                    match hour {
                        Some(h) => {
                            if sums_fit(in_hour(s, h as int)) {
                                lemma_sums_fit_hour_prefix(s, i + 1, h as int);
                            }
                        },
                        None => {
                            if sums_fit(s) {
                                lemma_sums_fit_prefix(s, i + 1);
                            }
                        },
                    }
                }
                return false;
            }
        } else {
            proof {
                match hour {
                    Some(h) => assert(in_hour(q, h as int) == in_hour(p, h as int)),
                    None => {},
                }
            }
        }
        i = i + 1;
    }
    assert(s.take(s.len() as int) =~= s);
    true
}

/// Whether `sites` meets `sites_ok`.
pub fn sites_ok_exec(sites: &Vec<SiteDetail>) -> (r: bool)
    ensures
        r == sites_ok(sites@),
{
    let mut i: usize = 0;
    while i < sites.len()
        invariant
            0 <= i <= sites@.len(),
            forall|j: int| 0 <= j < i ==> valid_ts((#[trigger] sites@[j]).occurred_at as int),
        decreases sites@.len() - i,
    {
        if sites[i].occurred_at < MIN_TS || sites[i].occurred_at > MAX_TS {
            return false;
        }
        i = i + 1;
    }
    if !sums_fit_exec(sites, None) {
        return false;
    }
    let hours = distinct_hours(sites);
    let mut k: usize = 0;
    while k < hours.len()
        invariant
            0 <= k <= hours@.len(),
            forall|j: int| 0 <= j < sites@.len() ==> valid_ts((#[trigger] sites@[j]).occurred_at as int),
            forall|m: int| 0 <= m < k ==> sums_fit(in_hour(sites@, (#[trigger] hours@[m]) as int)),
        decreases hours@.len() - k,
    {
        if !sums_fit_exec(sites, Some(hours[k])) {
            return false;
        }
        k = k + 1;
    }
    proof {
        reveal(hours_cover);
        assert forall|h: int| #[trigger] sums_fit(in_hour(sites@, h)) by {
            if exists|m: int| 0 <= m < hours@.len() && hours@[m] == h {
                let m = choose|m: int| 0 <= m < hours@.len() && hours@[m] == h;
                assert(sums_fit(in_hour(sites@, hours@[m] as int)));
            } else {
                assert forall|j: int| 0 <= j < sites@.len() implies hour_of(
                    (#[trigger] sites@[j]).occurred_at as int,
                ) != h by {
                    let m0 = choose|m0: int|
                        0 <= m0 < hours@.len() && #[trigger] hours@[m0] == hour_of(
                            (#[trigger] sites@[j]).occurred_at as int,
                        );
                }
                lemma_in_hour_empty(sites@, h);
                assert(in_hour(sites@, h).len() == 0);
            }
        }
    }
    true
}

/// `build_report` when its inputs meet `report_inputs_ok`; `None` on the
/// inputs where a total would overflow.
pub fn try_build_report(events: &Vec<WalletPayout>, settings: &RunSettings) -> (r: Option<AnalyticsReport>)
    ensures
        r is Some <==> report_inputs_ok(payouts_view(events@), *settings),
        r matches Some(x) ==> {
            &&& x.sites@ == details_of(payouts_view(events@), *settings)
            &&& x.session == summary_of(x.sites@)
            &&& hourly_ok(x.sites@, x.hourly@)
        },
{
    let ghost ev = payouts_view(events@);
    let mut i: usize = 0;
    while i < events.len()
        invariant
            0 <= i <= events@.len(),
            ev == payouts_view(events@),
            forall|j: int| 0 <= j < i ==> valid_ts((#[trigger] ev[j]).occurred_at as int),
        decreases events@.len() - i,
    {
        assert(ev[i as int] == events@[i as int]@);
        if events[i].occurred_at < MIN_TS || events[i].occurred_at > MAX_TS {
            return None;
        }
        i = i + 1;
    }
    if let Some(t) = settings.run_start {
        if t < MIN_TS || t > MAX_TS {
            return None;
        }
    }
    let a: i128 = settings.lp_per_char as i128;
    let b: i128 = settings.fleet_size as i128;
    assert(-0x8000_0000_0000_0000 * 0x1_0000_0000 <= a * b <= 0x8000_0000_0000_0000 * 0x1_0000_0000)
        by (nonlinear_arith)
        requires
            -0x8000_0000_0000_0000 <= a <= 0x7fff_ffff_ffff_ffff,
            0 <= b <= 0xffff_ffff,
    ;
    let lp: i128 = a * b;
    if lp < i64::MIN as i128 || lp > i64::MAX as i128 {
        return None;
    }
    let sites = site_details(events, settings);
    if !sites_ok_exec(&sites) {
        return None;
    }
    let session = summarize(&sites);
    let hourly = hourly_buckets(&sites);
    Some(AnalyticsReport { session, hourly, sites })
}

/// All sites of `reports`, report by report.
pub open spec fn all_sites(reports: Seq<AnalyticsReport>) -> Seq<SiteDetail>
    decreases reports.len(),
{
    if reports.len() == 0 {
        seq![]
    } else {
        all_sites(reports.drop_last()) + reports.last().sites@
    }
}

pub open spec fn sorted_by_time(s: Seq<SiteDetail>) -> bool {
    forall|i: int, j: int| 0 <= i < j < s.len() ==> (#[trigger] s[i]).occurred_at <= (
    #[trigger] s[j]).occurred_at
}

/// How many sites of `s` are not later than `t`.
pub open spec fn count_not_later(s: Seq<SiteDetail>, t: i64) -> int
    decreases s.len(),
{
    if s.len() == 0 {
        0
    } else {
        count_not_later(s.drop_last(), t) + if s.last().occurred_at <= t {
            1int
        } else {
            0int
        }
    }
}

/// `d` inserted into the time-sorted `s` after every site not later than it.
pub open spec fn insert_after_same_time(s: Seq<SiteDetail>, d: SiteDetail) -> Seq<SiteDetail> {
    s.insert(count_not_later(s, d.occurred_at), d)
}

/// `s` sorted by time, stably: sites at the same second keep their order.
pub open spec fn time_sorted(s: Seq<SiteDetail>) -> Seq<SiteDetail>
    decreases s.len(),
{
    if s.len() == 0 {
        s
    } else {
        insert_after_same_time(time_sorted(s.drop_last()), s.last())
    }
}

/// In a time-sorted `s`, the sites not later than `t` are the first `k`.
proof fn lemma_count_not_later(s: Seq<SiteDetail>, t: i64, k: int)
    requires
        sorted_by_time(s),
        0 <= k <= s.len(),
        forall|j: int| 0 <= j < k ==> s[j].occurred_at <= t,
        k < s.len() ==> s[k].occurred_at > t,
    ensures
        count_not_later(s, t) == k,
    decreases s.len(),
{
    if s.len() > 0 {
        let p = s.drop_last();
        if k == s.len() {
            assert forall|j: int| 0 <= j < k - 1 implies p[j].occurred_at <= t by {
                assert(p[j] == s[j]);
            }
            lemma_count_not_later(p, t, k - 1);
            assert(s.last() == s[k - 1]);
        } else {
            assert(s.last().occurred_at > t) by {
                assert(s[s.len() - 1] == s.last());
                if k < s.len() - 1 {
                    assert(s[k].occurred_at <= s[s.len() - 1].occurred_at);
                }
            }
            assert forall|j: int| 0 <= j < k implies p[j].occurred_at <= t by {
                assert(p[j] == s[j]);
            }
            if k < p.len() {
                assert(p[k] == s[k]);
            }
            lemma_count_not_later(p, t, k);
        }
    }
}

/// Inserts `d` after every site that is not later than it.
fn insert_by_time(out: &mut Vec<SiteDetail>, d: SiteDetail)
    requires
        sorted_by_time(old(out)@),
    ensures
        sorted_by_time(final(out)@),
        final(out)@ == insert_after_same_time(old(out)@, d),
        final(out)@.to_multiset() == old(out)@.to_multiset().insert(d),
        final(out)@.len() == old(out)@.len() + 1,
{
    let ghost before = out@;
    let mut k: usize = 0;
    while k < out.len() && out[k].occurred_at <= d.occurred_at
        invariant
            0 <= k <= out@.len(),
            out@ == before,
            forall|j: int| 0 <= j < k ==> before[j].occurred_at <= d.occurred_at,
        decreases out@.len() - k,
    {
        k = k + 1;
    }
    proof {
        lemma_count_not_later(before, d.occurred_at, k as int);
    }
    out.insert(k, d);
    proof {
        let after = out@;
        vstd::seq_lib::to_multiset_insert(before, k as int, d);
        assert forall|i: int, j: int| 0 <= i < j < after.len() implies (#[trigger] after[i]).occurred_at
            <= (#[trigger] after[j]).occurred_at by {
            if j < k {
                assert(after[i] == before[i] && after[j] == before[j]);
            } else if j == k {
                assert(after[i] == before[i]);
            } else if i == k {
                assert(after[j] == before[j - 1]);
                if j - 1 > k {
                    assert(before[k as int].occurred_at <= before[j - 1].occurred_at);
                }
            } else if i < k {
                assert(after[i] == before[i] && after[j] == before[j - 1]);
            } else {
                assert(after[i] == before[i - 1] && after[j] == before[j - 1]);
            }
        }
    }
}

/// Every site of `reports`, in time order (sites at the same second keep
/// their report order).
pub fn merged_sites(reports: &Vec<AnalyticsReport>) -> (r: Vec<SiteDetail>)
    ensures
        r@ == time_sorted(all_sites(reports@)),
        sorted_by_time(r@),
        r@.to_multiset() == all_sites(reports@).to_multiset(),
{
    let mut merged: Vec<SiteDetail> = Vec::new();
    let mut k: usize = 0;
    assert(reports@.take(0) =~= Seq::<AnalyticsReport>::empty());
    assert(merged@.to_multiset() =~= all_sites(reports@.take(0)).to_multiset());
    while k < reports.len()
        invariant
            0 <= k <= reports@.len(),
            sorted_by_time(merged@),
            merged@ == time_sorted(all_sites(reports@.take(k as int))),
            merged@.to_multiset() == all_sites(reports@.take(k as int)).to_multiset(),
        decreases reports@.len() - k,
    {
        let ghost before_k = all_sites(reports@.take(k as int));
        assert(reports@.take(k + 1).drop_last() =~= reports@.take(k as int));
        assert(reports@.take(k + 1).last() == reports@[k as int]);
        let sites = &reports[k].sites;
        let mut j: usize = 0;
        assert(sites@.take(0) =~= Seq::<SiteDetail>::empty());
        assert(before_k + sites@.take(0) =~= before_k);
        while j < sites.len()
            invariant
                0 <= j <= sites@.len(),
                sorted_by_time(merged@),
                merged@ == time_sorted(before_k + sites@.take(j as int)),
                merged@.to_multiset() == (before_k + sites@.take(j as int)).to_multiset(),
            decreases sites@.len() - j,
        {
            insert_by_time(&mut merged, sites[j]);
            proof {
                assert(before_k + sites@.take(j + 1) =~= (before_k + sites@.take(j as int)).push(
                    sites@[j as int],
                ));
                assert((before_k + sites@.take(j + 1)).drop_last() =~= before_k + sites@.take(j as int));
                vstd::seq_lib::to_multiset_build(before_k + sites@.take(j as int), sites@[j as int]);
            }
            j = j + 1;
        }
        assert(sites@.take(sites@.len() as int) =~= sites@);
        k = k + 1;
    }
    assert(reports@.take(reports@.len() as int) =~= reports@);
    merged
}

/// Merge reports (Spawn/Overall scopes): every site, in time order (sites at
/// the same second keep their report order), with totals and hours rebuilt.
pub fn merge_reports(reports: &Vec<AnalyticsReport>) -> (r: AnalyticsReport)
    requires
        sites_ok(time_sorted(all_sites(reports@))),
    ensures
        r.sites@ == time_sorted(all_sites(reports@)),
        sorted_by_time(r.sites@),
        r.sites@.to_multiset() == all_sites(reports@).to_multiset(),
        r.session == summary_of(r.sites@),
        hourly_ok(r.sites@, r.hourly@),
{
    let merged = merged_sites(reports);
    let session = summarize(&merged);
    let hourly = hourly_buckets(&merged);
    AnalyticsReport { session, hourly, sites: merged }
}

/// `merge_reports` when the reports meet `sites_ok`; `None` on the inputs
/// where a total would overflow.
pub fn try_merge_reports(reports: &Vec<AnalyticsReport>) -> (r: Option<AnalyticsReport>)
    ensures
        r is Some <==> sites_ok(time_sorted(all_sites(reports@))),
        r matches Some(x) ==> {
            &&& x.sites@ == time_sorted(all_sites(reports@))
            &&& sorted_by_time(x.sites@)
            &&& x.sites@.to_multiset() == all_sites(reports@).to_multiset()
            &&& x.session == summary_of(x.sites@)
            &&& hourly_ok(x.sites@, x.hourly@)
        },
{
    let merged = merged_sites(reports);
    if !sites_ok_exec(&merged) {
        return None;
    }
    let session = summarize(&merged);
    let hourly = hourly_buckets(&merged);
    Some(AnalyticsReport { session, hourly, sites: merged })
}


proof fn lemma_totals_remove(b: Seq<SiteDetail>, k: int)
    requires
        0 <= k < b.len(),
    ensures
        sum_isk(b) == sum_isk(b.remove(k)) + b[k].amount_isk,
        sum_lp(b) == sum_lp(b.remove(k)) + b[k].fleet_lp,
        sum_timed(b) == sum_timed(b.remove(k)) + match timed_of(b[k]) {
            Some(x) => x,
            None => 0,
        },
        count_timed(b) == count_timed(b.remove(k)) + if timed_of(b[k]) is Some {
            1int
        } else {
            0int
        },
    decreases b.len(),
{
    if k == b.len() - 1 {
        assert(b.remove(k) =~= b.drop_last());
    } else {
        lemma_totals_remove(b.drop_last(), k);
        assert(b.remove(k).drop_last() =~= b.drop_last().remove(k));
        assert(b.remove(k).last() == b.last());
    }
}

/// Totals do not depend on the order of the sites.
pub proof fn lemma_summary_multiset(a: Seq<SiteDetail>, b: Seq<SiteDetail>)
    requires
        a.to_multiset() == b.to_multiset(),
    ensures
        sum_isk(a) == sum_isk(b),
        sum_lp(a) == sum_lp(b),
        sum_timed(a) == sum_timed(b),
        count_timed(a) == count_timed(b),
        a.len() == b.len(),
    decreases a.len(),
{
    a.to_multiset_ensures();
    b.to_multiset_ensures();
    if a.len() > 0 {
        let x = a.last();
        assert(a.contains(x)) by {
            assert(a[a.len() - 1] == x);
        }
        assert(a.to_multiset().count(x) > 0);
        assert(b.to_multiset().count(x) > 0);
        assert(b.contains(x));
        let k = choose|k: int| 0 <= k < b.len() && b[k] == x;
        let b2 = b.remove(k);
        vstd::seq_lib::to_multiset_remove(b, k);
        assert(a.drop_last().push(x) =~= a);
        vstd::seq_lib::to_multiset_build(a.drop_last(), x);
        assert(a.drop_last().to_multiset() =~= b2.to_multiset());
        lemma_summary_multiset(a.drop_last(), b2);
        lemma_totals_remove(b, k);
    } else {
        assert(b.len() == 0);
    }
}

/// Merging reports keeps every total: the merged session is the session of
/// all the reports' sites together.
pub proof fn law_merge_keeps_totals(reports: Seq<AnalyticsReport>, merged: AnalyticsReport)
    requires
        merged.sites@.to_multiset() == all_sites(reports).to_multiset(),
        merged.session == summary_of(merged.sites@),
    ensures
        merged.session == summary_of(all_sites(reports)),
{
    lemma_summary_multiset(merged.sites@, all_sites(reports));
}

/// Site count, ISK, LP, timed seconds and timed sites of `s`.
pub open spec fn site_totals(s: Seq<SiteDetail>) -> (int, int, int, int, int) {
    (s.len() as int, sum_isk(s), sum_lp(s), sum_timed(s), count_timed(s) as int)
}

/// The same five totals added up over hourly buckets.
pub open spec fn bucket_totals(b: Seq<HourlyBucket>) -> (int, int, int, int, int)
    decreases b.len(),
{
    if b.len() == 0 {
        (0, 0, 0, 0, 0)
    } else {
        let t = bucket_totals(b.drop_last());
        let x = b.last();
        (
            t.0 + x.sites,
            t.1 + x.total_isk,
            t.2 + x.total_lp,
            t.3 + x.timed_seconds,
            t.4 + x.timed_sites,
        )
    }
}

/// The totals of the sites of each hour in `hs`, added up.
spec fn grouped(s: Seq<SiteDetail>, hs: Seq<int>) -> (int, int, int, int, int)
    decreases hs.len(),
{
    if hs.len() == 0 {
        (0, 0, 0, 0, 0)
    } else {
        let t = grouped(s, hs.drop_last());
        let u = site_totals(in_hour(s, hs.last()));
        (t.0 + u.0, t.1 + u.1, t.2 + u.2, t.3 + u.3, t.4 + u.4)
    }
}

/// What site `d` adds to the totals.
spec fn contribution(d: SiteDetail) -> (int, int, int, int, int) {
    (
        1,
        d.amount_isk as int,
        d.fleet_lp as int,
        match timed_of(d) {
            Some(x) => x,
            None => 0,
        },
        if timed_of(d) is Some {
            1int
        } else {
            0int
        },
    )
}

proof fn lemma_grouped_empty(hs: Seq<int>)
    ensures
        grouped(Seq::<SiteDetail>::empty(), hs) == (0int, 0int, 0int, 0int, 0int),
    decreases hs.len(),
{
    if hs.len() > 0 {
        lemma_grouped_empty(hs.drop_last());
    }
}

/// The entries of `hs` are distinct.
spec fn distinct_hours_seq(hs: Seq<int>) -> bool {
    forall|i: int, j: int| 0 <= i < j < hs.len() ==> hs[i] != hs[j]
}

/// One more site adds its contribution to the group of its hour, when that
/// hour is among `hs`.
proof fn lemma_grouped_push(s: Seq<SiteDetail>, d: SiteDetail, hs: Seq<int>)
    requires
        distinct_hours_seq(hs),
    ensures
        ({
            let a = grouped(s.push(d), hs);
            let b = grouped(s, hs);
            let c = contribution(d);
            if hs.contains(hour_of(d.occurred_at as int)) {
                a == (b.0 + c.0, b.1 + c.1, b.2 + c.2, b.3 + c.3, b.4 + c.4)
            } else {
                a == b
            }
        }),
    decreases hs.len(),
{
    let q = s.push(d);
    let hd = hour_of(d.occurred_at as int);
    assert(q.drop_last() =~= s);
    if hs.len() > 0 {
        let p = hs.drop_last();
        let h = hs.last();
        assert(distinct_hours_seq(p)) by {
            assert forall|i: int, j: int| 0 <= i < j < p.len() implies p[i] != p[j] by {
                assert(p[i] == hs[i] && p[j] == hs[j]);
            }
        }
        lemma_grouped_push(s, d, p);
        if hd == h {
            let g = in_hour(s, h);
            assert(in_hour(q, h) == g.push(d));
            assert(g.push(d).drop_last() =~= g);
            assert(!p.contains(h)) by {
                if p.contains(h) {
                    let k = choose|k: int| 0 <= k < p.len() && p[k] == h;
                    assert(hs[k] == hs[hs.len() - 1]);
                }
            }
            assert(hs.contains(hd)) by {
                assert(hs[hs.len() - 1] == h);
            }
        } else {
            assert(in_hour(q, h) == in_hour(s, h));
            assert(hs.contains(hd) == p.contains(hd)) by {
                if hs.contains(hd) {
                    let k = choose|k: int| 0 <= k < hs.len() && hs[k] == hd;
                    assert(k < hs.len() - 1);
                    assert(p[k] == hd);
                }
                if p.contains(hd) {
                    let k = choose|k: int| 0 <= k < p.len() && p[k] == hd;
                    assert(hs[k] == hd);
                }
            }
        }
    }
}

/// Grouping the sites by distinct hours that cover them loses none.
proof fn lemma_partition(s: Seq<SiteDetail>, hs: Seq<int>)
    requires
        distinct_hours_seq(hs),
        forall|i: int| 0 <= i < s.len() ==> hs.contains(hour_of((#[trigger] s[i]).occurred_at as int)),
    ensures
        grouped(s, hs) == site_totals(s),
    decreases s.len(),
{
    if s.len() == 0 {
        lemma_grouped_empty(hs);
        assert(s =~= Seq::<SiteDetail>::empty());
    } else {
        let p = s.drop_last();
        let d = s.last();
        assert forall|i: int| 0 <= i < p.len() implies hs.contains(hour_of((#[trigger] p[i]).occurred_at as int)) by {
            assert(p[i] == s[i]);
        }
        lemma_partition(p, hs);
        assert(p.push(d) =~= s);
        lemma_grouped_push(p, d, hs);
        assert(s[s.len() - 1] == d);
        assert(hs.contains(hour_of(s[s.len() - 1].occurred_at as int)));
    }
}

/// The buckets' totals, read as the sums over their hours.
proof fn lemma_bucket_totals(s: Seq<SiteDetail>, b: Seq<HourlyBucket>)
    requires
        sites_ok(s),
        s.len() <= u32::MAX,
        forall|k: int| 0 <= k < b.len() ==> #[trigger] b[k] == bucket_of(s, b[k].hour_start as int),
    ensures
        bucket_totals(b) == grouped(s, b.map_values(|x: HourlyBucket| x.hour_start as int)),
    decreases b.len(),
{
    if b.len() > 0 {
        let p = b.drop_last();
        assert forall|k: int| 0 <= k < p.len() implies #[trigger] p[k] == bucket_of(s, p[k].hour_start as int) by {
            assert(p[k] == b[k]);
        }
        lemma_bucket_totals(s, p);
        let hs = b.map_values(|x: HourlyBucket| x.hour_start as int);
        assert(hs.drop_last() =~= p.map_values(|x: HourlyBucket| x.hour_start as int));
        let h = b.last().hour_start as int;
        assert(b[b.len() - 1] == b.last());
        assert(sums_fit(in_hour(s, h)));
        lemma_sums_fit_total(in_hour(s, h));
        lemma_counts_bounded(s, h);
    }
}

/// Every site falls in exactly one hourly bucket: the buckets' site counts,
/// ISK, LP, timed seconds and timed sites add up to the session's.
pub proof fn law_hourly_buckets_partition_sites(s: Seq<SiteDetail>, b: Seq<HourlyBucket>)
    requires
        sites_ok(s),
        s.len() <= u32::MAX,
        hourly_ok(s, b),
    ensures
        bucket_totals(b) == site_totals(s),
        summary_of(s).sites_ran == bucket_totals(b).0,
        summary_of(s).liquid_isk == bucket_totals(b).1,
        summary_of(s).net_lp == bucket_totals(b).2,
        summary_of(s).time_spent_seconds == bucket_totals(b).3,
        summary_of(s).timed_sites == bucket_totals(b).4,
{
    let hs = b.map_values(|x: HourlyBucket| x.hour_start as int);
    lemma_bucket_totals(s, b);
    assert(distinct_hours_seq(hs)) by {
        assert forall|i: int, j: int| 0 <= i < j < hs.len() implies hs[i] != hs[j] by {
            assert(b[i].hour_start < b[j].hour_start);
        }
    }
    assert forall|i: int| 0 <= i < s.len() implies hs.contains(hour_of((#[trigger] s[i]).occurred_at as int)) by {
        assert(hour_listed(b, hour_of(s[i].occurred_at as int)));
        let k = choose|k: int| 0 <= k < b.len() && (#[trigger] b[k]).hour_start == hour_of(s[i].occurred_at as int);
        assert(hs[k] == hour_of(s[i].occurred_at as int));
    }
    lemma_partition(s, hs);
    lemma_sums_fit_total(s);
    lemma_counts_bounded(s, 0);
}

/// Sites already in time order are their own stable sort.
pub proof fn lemma_time_sorted_sorted(s: Seq<SiteDetail>)
    requires
        sorted_by_time(s),
    ensures
        time_sorted(s) == s,
    decreases s.len(),
{
    if s.len() > 0 {
        let p = s.drop_last();
        let d = s.last();
        assert(sorted_by_time(p)) by {
            assert forall|i: int, j: int| 0 <= i < j < p.len() implies (#[trigger] p[i]).occurred_at <= (
            #[trigger] p[j]).occurred_at by {
                assert(p[i] == s[i] && p[j] == s[j]);
            }
        }
        lemma_time_sorted_sorted(p);
        assert forall|j: int| 0 <= j < p.len() implies p[j].occurred_at <= d.occurred_at by {
            assert(p[j] == s[j]);
            assert(s[s.len() - 1] == d);
        }
        lemma_count_not_later(p, d.occurred_at, p.len() as int);
        assert(p.insert(p.len() as int, d) =~= s);
    }
}

/// Merging one report whose sites are in time order gives back its sites,
/// and so its session and hourly buckets.
pub proof fn law_merge_of_one_report(r: AnalyticsReport)
    requires
        sorted_by_time(r.sites@),
    ensures
        time_sorted(all_sites(seq![r])) == r.sites@,
{
    let one = seq![r];
    assert(one.drop_last() =~= Seq::<AnalyticsReport>::empty());
    assert(one.last() == r);
    assert(all_sites(one.drop_last()) == Seq::<SiteDetail>::empty());
    assert(Seq::<SiteDetail>::empty() + r.sites@ =~= r.sites@);
    assert(all_sites(one) == r.sites@);
    lemma_time_sorted_sorted(r.sites@);
}

} // verus!
