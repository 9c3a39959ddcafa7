//! Enrichment math: FC resolution, approach / combat→payout per site, dead
//! missiles, and the aggregate of per-run snapshots.
//!
//! Approach time is a residual: `site_duration - combat_to_payout`, measured
//! only once the fleet has warped in (the first `FollowingWarp` in the gap).
//! Combat runs from the first `CombatHit` at or after that warp anchor until
//! the payout.

use vstd::prelude::*;
use crate::analytics_types::{
    diagnostics_view, missiles_view, sites_view, Diagnostic, DiagnosticView, EnrichmentSite, EnrichmentSiteView,
    EnrichmentSnapshot, EnrichmentSource, EnrichmentTotals, MissileStat, MissileStatView,
};
use crate::clock::{valid_ts, MAX_TS, MIN_TS};
use crate::gamelog_parse::{events_view, GamelogEvent, GamelogEventKind, GamelogEventView};
use crate::gamelog_scan::{logs_view, ListenerLog, ListenerLogView};
use crate::site_id::{decimal, decimal_string};
use crate::text::{chars_of, string_of, trim, trim_range};

verus! {

// ---------------------------------------------------------------- totals

/// The approach (or, with `combat`, the combat→payout) time a site adds to
/// the totals: none for a break.
pub open spec fn counted(s: EnrichmentSiteView, combat: bool) -> Option<i64> {
    if s.is_break {
        None
    } else if combat {
        s.combat_to_payout_seconds
    } else {
        s.approach_seconds
    }
}

pub open spec fn counted_sum(s: Seq<EnrichmentSiteView>, combat: bool) -> int
    decreases s.len(),
{
    if s.len() == 0 {
        0
    } else {
        counted_sum(s.drop_last(), combat) + match counted(s.last(), combat) {
            Some(x) => x as int,
            None => 0,
        }
    }
}

pub open spec fn counted_sites(s: Seq<EnrichmentSiteView>, combat: bool) -> nat
    decreases s.len(),
{
    if s.len() == 0 {
        0
    } else {
        counted_sites(s.drop_last(), combat) + if counted(s.last(), combat) is Some {
            1nat
        } else {
            0nat
        }
    }
}

/// Every running sum of the counted times, added up in order, fits in
/// `i64`.
pub open spec fn counted_fits(s: Seq<EnrichmentSiteView>, combat: bool) -> bool
    decreases s.len(),
{
    s.len() == 0 || (counted_fits(s.drop_last(), combat) && i64::MIN <= counted_sum(s, combat) <= i64::MAX)
}

pub open spec fn dead_sum(m: Seq<MissileStatView>) -> int
    decreases m.len(),
{
    if m.len() == 0 {
        0
    } else {
        dead_sum(m.drop_last()) + m.last().dead
    }
}

/// Totals of sites and missile rows: approach and combat sums over non-break
/// sites where they were measured (`None` when no site was), the number of
/// combat-measured sites, and the dead missiles of all rows.
pub open spec fn totals_of(sites: Seq<EnrichmentSiteView>, missiles: Seq<MissileStatView>) -> EnrichmentTotals {
    EnrichmentTotals {
        approach_seconds: if counted_sites(sites, false) == 0 {
            None
        } else {
            Some(counted_sum(sites, false) as i64)
        },
        combat_to_payout_seconds: if counted_sites(sites, true) == 0 {
            None
        } else {
            Some(counted_sum(sites, true) as i64)
        },
        combat_sites: counted_sites(sites, true) as u64,
        fleet_dead: dead_sum(missiles) as u32,
    }
}

/// The totals fit their integer types.
pub open spec fn totals_fit(sites: Seq<EnrichmentSiteView>, missiles: Seq<MissileStatView>) -> bool {
    &&& counted_fits(sites, false)
    &&& counted_fits(sites, true)
    &&& dead_sum(missiles) <= u32::MAX
}

proof fn lemma_counted_prefix(s: Seq<EnrichmentSiteView>, k: int, combat: bool)
    requires
        counted_fits(s, combat),
        0 <= k <= s.len(),
    ensures
        counted_fits(s.take(k), combat),
        i64::MIN <= counted_sum(s.take(k), combat) <= i64::MAX,
        counted_sites(s.take(k), combat) <= k,
    decreases s.len() - k,
{
    if k < s.len() {
        lemma_counted_prefix(s, k + 1, combat);
        assert(s.take(k + 1).drop_last() =~= s.take(k));
    } else {
        assert(s.take(k) =~= s);
    }
    let t = s.take(k);
    if t.len() == 0 {
        assert(counted_sum(t, combat) == 0);
    } else {
        assert(counted_fits(t, combat));
    }
    lemma_counted_sites_bound(s.take(k), combat);
}

proof fn lemma_counted_sites_bound(s: Seq<EnrichmentSiteView>, combat: bool)
    ensures
        counted_sites(s, combat) <= s.len(),
    decreases s.len(),
{
    if s.len() > 0 {
        lemma_counted_sites_bound(s.drop_last(), combat);
    }
}

proof fn lemma_dead_prefix(m: Seq<MissileStatView>, k: int)
    requires
        0 <= k <= m.len(),
    ensures
        0 <= dead_sum(m.take(k)) <= dead_sum(m),
    decreases m.len() - k,
{
    if k < m.len() {
        lemma_dead_prefix(m, k + 1);
        assert(m.take(k + 1).drop_last() =~= m.take(k));
        lemma_dead_nonneg(m.take(k));
    } else {
        assert(m.take(k) =~= m);
        lemma_dead_nonneg(m);
    }
}

proof fn lemma_dead_nonneg(m: Seq<MissileStatView>)
    ensures
        dead_sum(m) >= 0,
    decreases m.len(),
{
    if m.len() > 0 {
        lemma_dead_nonneg(m.drop_last());
    }
}

/// Sum and count of the counted times of `sites`.
fn counted_totals(sites: &Vec<EnrichmentSite>, combat: bool) -> (r: (i64, u64))
    requires
        counted_fits(sites_view(sites@), combat),
    ensures
        r.0 == counted_sum(sites_view(sites@), combat),
        r.1 == counted_sites(sites_view(sites@), combat),
{
    let ghost sv = sites_view(sites@);
    let mut sum: i64 = 0;
    let mut n: u64 = 0;
    let mut i: usize = 0;
    while i < sites.len()
        invariant
            0 <= i <= sites@.len(),
            sv == sites_view(sites@),
            counted_fits(sv, combat),
            sum == counted_sum(sv.take(i as int), combat),
            n == counted_sites(sv.take(i as int), combat),
        decreases sites@.len() - i,
    {
        proof {
            lemma_counted_prefix(sv, i + 1, combat);
            assert(sv.take(i + 1).drop_last() =~= sv.take(i as int));
            assert(sv.take(i + 1).last() == sites@[i as int]@);
        }
        let s = &sites[i];
        let v = if s.is_break {
            None
        } else if combat {
            s.combat_to_payout_seconds
        } else {
            s.approach_seconds
        };
        match v {
            Some(x) => {
                sum = sum + x;
                n = n + 1;
            },
            None => {},
        }
        i = i + 1;
    }
    assert(sv.take(sites@.len() as int) =~= sv);
    (sum, n)
}

/// Totals rule shared by `enrich_run` and `aggregate_enrichments`.
pub fn enrichment_totals(sites: &Vec<EnrichmentSite>, missiles: &Vec<MissileStat>) -> (r: EnrichmentTotals)
    requires
        totals_fit(sites_view(sites@), missiles_view(missiles@)),
    ensures
        r == totals_of(sites_view(sites@), missiles_view(missiles@)),
{
    let (approach, approach_n) = counted_totals(sites, false);
    let (combat, combat_n) = counted_totals(sites, true);
    let ghost mv = missiles_view(missiles@);
    let mut dead: u32 = 0;
    let mut i: usize = 0;
    while i < missiles.len()
        invariant
            0 <= i <= missiles@.len(),
            mv == missiles_view(missiles@),
            dead_sum(mv) <= u32::MAX,
            dead == dead_sum(mv.take(i as int)),
        decreases missiles@.len() - i,
    {
        proof {
            lemma_dead_prefix(mv, i + 1);
            assert(mv.take(i + 1).drop_last() =~= mv.take(i as int));
        }
        dead = dead + missiles[i].dead;
        i = i + 1;
    }
    assert(mv.take(missiles@.len() as int) =~= mv);
    EnrichmentTotals {
        approach_seconds: if approach_n == 0 {
            None
        } else {
            Some(approach)
        },
        combat_to_payout_seconds: if combat_n == 0 {
            None
        } else {
            Some(combat)
        },
        combat_sites: combat_n,
        fleet_dead: dead,
    }
}

/// Whether the totals of `sites` and `missiles` fit their integer types.
pub(crate) fn totals_fit_check(sites: &Vec<EnrichmentSite>, missiles: &Vec<MissileStat>) -> (b: bool)
    ensures
        b == totals_fit(sites_view(sites@), missiles_view(missiles@)),
{
    counted_fits_exec(sites, false) && counted_fits_exec(sites, true) && dead_fits(missiles)
}

fn counted_fits_exec(sites: &Vec<EnrichmentSite>, combat: bool) -> (b: bool)
    ensures
        b == counted_fits(sites_view(sites@), combat),
{
    let ghost sv = sites_view(sites@);
    let mut acc: i128 = 0;
    let mut i: usize = 0;
    assert(sv.take(0).len() == 0);
    while i < sites.len()
        invariant
            0 <= i <= sites@.len(),
            sv == sites_view(sites@),
            counted_fits(sv.take(i as int), combat),
            acc == counted_sum(sv.take(i as int), combat),
            i64::MIN <= acc <= i64::MAX,
        decreases sites@.len() - i,
    {
        proof {
            assert(sv.take(i + 1).drop_last() =~= sv.take(i as int));
            assert(sv.take(i + 1).last() == sites@[i as int]@);
        }
        let s = &sites[i];
        let v = if s.is_break {
            None
        } else if combat {
            s.combat_to_payout_seconds
        } else {
            s.approach_seconds
        };
        match v {
            Some(x) => {
                acc = acc + x as i128;
            },
            None => {},
        }
        i = i + 1;
        if acc < i64::MIN as i128 || acc > i64::MAX as i128 {
            proof {
                if counted_fits(sv, combat) {
                    lemma_counted_prefix(sv, i as int, combat);
                }
            }
            return false;
        }
    }
    assert(sv.take(sites@.len() as int) =~= sv);
    true
}

fn dead_fits(missiles: &Vec<MissileStat>) -> (b: bool)
    ensures
        b == (dead_sum(missiles_view(missiles@)) <= u32::MAX),
{
    let ghost mv = missiles_view(missiles@);
    let mut acc: u64 = 0;
    let mut i: usize = 0;
    while i < missiles.len()
        invariant
            0 <= i <= missiles@.len(),
            mv == missiles_view(missiles@),
            acc == dead_sum(mv.take(i as int)),
            acc <= u32::MAX,
        decreases missiles@.len() - i,
    {
        proof {
            assert(mv.take(i + 1).drop_last() =~= mv.take(i as int));
        }
        acc = acc + missiles[i].dead as u64;
        i = i + 1;
        if acc > u32::MAX as u64 {
            proof {
                lemma_dead_prefix(mv, i as int);
            }
            return false;
        }
    }
    assert(mv.take(missiles@.len() as int) =~= mv);
    true
}

// ---------------------------------------------------------------- events

/// Number of events of `kind`.
pub open spec fn kind_count(s: Seq<GamelogEventView>, kind: GamelogEventKind) -> nat
    decreases s.len(),
{
    if s.len() == 0 {
        0
    } else {
        kind_count(s.drop_last(), kind) + if s.last().kind == kind {
            1nat
        } else {
            0nat
        }
    }
}

/// The events with `lo <= occurred_at <= hi`, in order.
pub open spec fn between(s: Seq<GamelogEventView>, lo: int, hi: int) -> Seq<GamelogEventView>
    decreases s.len(),
{
    if s.len() == 0 {
        seq![]
    } else if lo <= s.last().occurred_at <= hi {
        between(s.drop_last(), lo, hi).push(s.last())
    } else {
        between(s.drop_last(), lo, hi)
    }
}

/// The earliest time of an event of `kind` with `lo <= occurred_at <= hi`.
pub open spec fn earliest(s: Seq<GamelogEventView>, kind: GamelogEventKind, lo: int, hi: int) -> Option<i64>
    decreases s.len(),
{
    if s.len() == 0 {
        None
    } else {
        let e = s.last();
        let r = earliest(s.drop_last(), kind, lo, hi);
        if e.kind == kind && lo <= e.occurred_at <= hi {
            match r {
                Some(m) => if m <= e.occurred_at {
                    Some(m)
                } else {
                    Some(e.occurred_at)
                },
                None => Some(e.occurred_at),
            }
        } else {
            r
        }
    }
}

pub open spec fn min_opt(a: Option<i64>, b: Option<i64>) -> Option<i64> {
    match (a, b) {
        (Some(x), Some(y)) => if x <= y {
            Some(x)
        } else {
            Some(y)
        },
        (Some(x), None) => Some(x),
        (None, y) => y,
    }
}

/// Every event of every log, log by log.
pub open spec fn all_events(logs: Seq<ListenerLogView>) -> Seq<GamelogEventView>
    decreases logs.len(),
{
    if logs.len() == 0 {
        seq![]
    } else {
        all_events(logs.drop_last()) + logs.last().events
    }
}

proof fn lemma_earliest_concat(a: Seq<GamelogEventView>, b: Seq<GamelogEventView>, kind: GamelogEventKind, lo: int, hi: int)
    ensures
        earliest(a + b, kind, lo, hi) == min_opt(earliest(a, kind, lo, hi), earliest(b, kind, lo, hi)),
    decreases b.len(),
{
    if b.len() == 0 {
        assert(a + b =~= a);
    } else {
        assert((a + b).drop_last() =~= a + b.drop_last());
        lemma_earliest_concat(a, b.drop_last(), kind, lo, hi);
    }
}

proof fn lemma_earliest_bounds(s: Seq<GamelogEventView>, kind: GamelogEventKind, lo: int, hi: int)
    ensures
        earliest(s, kind, lo, hi) matches Some(t) ==> lo <= t <= hi && exists|i: int|
            0 <= i < s.len() && (#[trigger] s[i]).occurred_at == t,
    decreases s.len(),
{
    if s.len() > 0 {
        lemma_earliest_bounds(s.drop_last(), kind, lo, hi);
        if let Some(t) = earliest(s.drop_last(), kind, lo, hi) {
            let i = choose|i: int| 0 <= i < s.drop_last().len() && (#[trigger] s.drop_last()[i]).occurred_at == t;
            assert(s[i] == s.drop_last()[i]);
        }
        assert(s[s.len() - 1] == s.last());
    }
}

/// Number of events of `kind` in `events`.
fn count_kind(events: &Vec<GamelogEvent>, kind: GamelogEventKind) -> (r: usize)
    ensures
        r == kind_count(events_view(events@), kind),
{
    let ghost ev = events_view(events@);
    let mut n: usize = 0;
    let mut i: usize = 0;
    while i < events.len()
        invariant
            0 <= i <= events@.len(),
            ev == events_view(events@),
            n == kind_count(ev.take(i as int), kind),
            n <= i,
        decreases events@.len() - i,
    {
        assert(ev.take(i + 1).drop_last() =~= ev.take(i as int));
        if events[i].kind == kind {
            n = n + 1;
        }
        i = i + 1;
    }
    assert(ev.take(events@.len() as int) =~= ev);
    n
}

/// Number of events of `kind` with `lo <= occurred_at <= hi`.
fn count_kind_between(events: &Vec<GamelogEvent>, kind: GamelogEventKind, lo: i64, hi: i64) -> (r: usize)
    ensures
        r == kind_count(between(events_view(events@), lo as int, hi as int), kind),
{
    let ghost ev = events_view(events@);
    let mut n: usize = 0;
    let mut i: usize = 0;
    while i < events.len()
        invariant
            0 <= i <= events@.len(),
            ev == events_view(events@),
            n == kind_count(between(ev.take(i as int), lo as int, hi as int), kind),
            n <= i,
        decreases events@.len() - i,
    {
        let ghost p = ev.take(i as int);
        assert(ev.take(i + 1).drop_last() =~= p);
        let e = &events[i];
        if lo <= e.occurred_at && e.occurred_at <= hi {
            proof {
                let b = between(p, lo as int, hi as int);
                assert(b.push(ev[i as int]).drop_last() =~= b);
                lemma_kind_count_le(b, kind);
            }
            if e.kind == kind {
                n = n + 1;
            }
        }
        i = i + 1;
    }
    assert(ev.take(events@.len() as int) =~= ev);
    n
}

proof fn lemma_kind_count_le(s: Seq<GamelogEventView>, kind: GamelogEventKind)
    ensures
        kind_count(s, kind) <= s.len(),
    decreases s.len(),
{
    if s.len() > 0 {
        lemma_kind_count_le(s.drop_last(), kind);
    }
}


// ---------------------------------------------------------------- FC

pub open spec fn str_opt(o: Option<&str>) -> Option<Seq<char>> {
    match o {
        Some(x) => Some(x@),
        None => None,
    }
}

pub open spec fn string_opt(o: Option<String>) -> Option<Seq<char>> {
    match o {
        Some(x) => Some(x@),
        None => None,
    }
}

pub open spec fn has_listener(logs: Seq<ListenerLogView>, name: Seq<char>) -> bool {
    exists|i: int| 0 <= i < logs.len() && (#[trigger] logs[i]).listener == name
}

/// A configured name, trimmed, when some log's Listener is exactly it.
pub open spec fn named_listener(logs: Seq<ListenerLogView>, name: Option<Seq<char>>) -> Option<Seq<char>> {
    match name {
        Some(n) => if trim(n).len() > 0 && has_listener(logs, trim(n)) {
            Some(trim(n))
        } else {
            None
        },
        None => None,
    }
}

pub open spec fn warp_count(l: ListenerLogView) -> nat {
    kind_count(l.events, GamelogEventKind::FollowingWarp)
}

/// Index of the first log with the fewest `FollowingWarp` events.
pub open spec fn fewest_warps(logs: Seq<ListenerLogView>) -> int
    decreases logs.len(),
{
    if logs.len() <= 1 {
        0
    } else {
        let m = fewest_warps(logs.drop_last());
        if warp_count(logs.last()) < warp_count(logs[m]) {
            logs.len() - 1
        } else {
            m
        }
    }
}

/// The FC: the settings name if a log has it, else the wallet hint if a log
/// has it, else the Listener that followed the fewest warps.
pub open spec fn fc_of(logs: Seq<ListenerLogView>, fc: Option<Seq<char>>, hint: Option<Seq<char>>) -> Option<Seq<char>> {
    match named_listener(logs, fc) {
        Some(n) => Some(n),
        None => match named_listener(logs, hint) {
            Some(n) => Some(n),
            None => if logs.len() == 0 {
                None
            } else {
                Some(logs[fewest_warps(logs)].listener)
            },
        },
    }
}

proof fn lemma_fewest_in_range(logs: Seq<ListenerLogView>)
    ensures
        logs.len() > 0 ==> 0 <= fewest_warps(logs) < logs.len(),
    decreases logs.len(),
{
    if logs.len() > 1 {
        lemma_fewest_in_range(logs.drop_last());
    }
}

fn find_named(logs: &Vec<ListenerLog>, name: Option<&str>) -> (r: Option<String>)
    ensures
        string_opt(r) == named_listener(logs_view(logs@), str_opt(name)),
{
    let ghost lv = logs_view(logs@);
    match name {
        None => None,
        Some(n) => {
            let v = chars_of(n);
            let (a, b) = trim_range(&v, 0, v.len());
            assert(v@.subrange(0, v@.len() as int) =~= n@);
            if a == b {
                return None;
            }
            let t = string_of(&v, a, b);
            assert(t@.len() > 0);
            let mut i: usize = 0;
            while i < logs.len()
                invariant
                    0 <= i <= logs@.len(),
                    lv == logs_view(logs@),
                    t@ == trim(n@),
                    t@.len() > 0,
                    str_opt(name) == Some(n@),
                    forall|j: int| 0 <= j < i ==> (#[trigger] lv[j]).listener != t@,
                decreases logs@.len() - i,
            {
                if logs[i].listener == t {
                    assert(lv[i as int].listener == t@);
                    assert(trim(n@).len() > 0);
                    assert(has_listener(lv, trim(n@)));
                    let found = logs[i].listener.clone();
                    assert(found@ == t@);
                    assert(named_listener(lv, str_opt(name)) == Some(trim(n@)));
                    return Some(found);
                }
                i = i + 1;
            }
            None
        },
    }
}

/// Resolve the fleet commander's Listener name.
///
/// Order: settings name (if it matches a Listener) → wallet description hint
/// (if it matches) → Listener with the fewest `FollowingWarp` events (the
/// first such log).
pub fn resolve_fc(logs: &Vec<ListenerLog>, fc_character: Option<&str>, wallet_fc_hint: Option<&str>) -> (r: Option<String>)
    ensures
        string_opt(r) == fc_of(logs_view(logs@), str_opt(fc_character), str_opt(wallet_fc_hint)),
{
    let ghost lv = logs_view(logs@);
    if let Some(n) = find_named(logs, fc_character) {
        return Some(n);
    }
    if let Some(n) = find_named(logs, wallet_fc_hint) {
        return Some(n);
    }
    if logs.len() == 0 {
        return None;
    }
    let mut best: usize = 0;
    let mut best_n: usize = count_kind(&logs[0].events, GamelogEventKind::FollowingWarp);
    let mut i: usize = 1;
    while i < logs.len()
        invariant
            1 <= i <= logs@.len(),
            lv == logs_view(logs@),
            0 <= best < i,
            best == fewest_warps(lv.take(i as int)),
            best_n == warp_count(lv[best as int]),
        decreases logs@.len() - i,
    {
        assert(lv.take(i + 1).drop_last() =~= lv.take(i as int));
        let c = count_kind(&logs[i].events, GamelogEventKind::FollowingWarp);
        if c < best_n {
            best = i;
            best_n = c;
        }
        i = i + 1;
    }
    assert(lv.take(logs@.len() as int) =~= lv);
    Some(logs[best].listener.clone())
}

// ---------------------------------------------------------------- window

pub open spec fn clip_log(l: ListenerLogView, lo: int, hi: int) -> ListenerLogView {
    ListenerLogView { listener: l.listener, path: l.path, events: between(l.events, lo, hi) }
}

/// Every log keeping only its events with `lo <= occurred_at <= hi`.
pub open spec fn clip_logs(logs: Seq<ListenerLogView>, lo: int, hi: int) -> Seq<ListenerLogView> {
    logs.map_values(|l: ListenerLogView| clip_log(l, lo, hi))
}

proof fn lemma_between_all(s: Seq<GamelogEventView>)
    ensures
        between(s, i64::MIN as int, i64::MAX as int) == s,
    decreases s.len(),
{
    if s.len() > 0 {
        lemma_between_all(s.drop_last());
        assert(s.drop_last().push(s.last()) =~= s);
    }
}

fn clip_events(events: &Vec<GamelogEvent>, lo: i64, hi: i64) -> (r: Vec<GamelogEvent>)
    ensures
        events_view(r@) == between(events_view(events@), lo as int, hi as int),
{
    let ghost ev = events_view(events@);
    let mut out: Vec<GamelogEvent> = Vec::new();
    let mut i: usize = 0;
    while i < events.len()
        invariant
            0 <= i <= events@.len(),
            ev == events_view(events@),
            events_view(out@) == between(ev.take(i as int), lo as int, hi as int),
        decreases events@.len() - i,
    {
        assert(ev.take(i + 1).drop_last() =~= ev.take(i as int));
        let e = &events[i];
        if lo <= e.occurred_at && e.occurred_at <= hi {
            let ghost before = out@;
            out.push(e.copied());
            assert(events_view(out@) =~= events_view(before).push(ev[i as int]));
        }
        i = i + 1;
    }
    assert(ev.take(events@.len() as int) =~= ev);
    out
}

/// Copy of `logs` keeping only events inside `[start, end]`.
fn clip_to_window(logs: &Vec<ListenerLog>, start: i64, end: i64) -> (r: Vec<ListenerLog>)
    ensures
        logs_view(r@) == clip_logs(logs_view(logs@), start as int, end as int),
{
    let mut out: Vec<ListenerLog> = Vec::new();
    let mut i: usize = 0;
    while i < logs.len()
        invariant
            0 <= i <= logs@.len(),
            out@.len() == i,
            forall|k: int| 0 <= k < i ==> (#[trigger] out@[k])@ == clip_log(logs@[k]@, start as int, end as int),
        decreases logs@.len() - i,
    {
        let l = &logs[i];
        out.push(ListenerLog {
            listener: l.listener.clone(),
            path: l.path.clone(),
            events: clip_events(&l.events, start, end),
        });
        i = i + 1;
    }
    assert(logs_view(out@) =~= clip_logs(logs_view(logs@), start as int, end as int));
    out
}

// ---------------------------------------------------------------- alignment

/// Approach, combat→payout and source of a gap `(gap_start, payout]` with a
/// wallet duration, from the events of every log: the warp anchor is the
/// earliest `FollowingWarp` in the gap (none: `Heuristic`, both null);
/// combat→payout runs from the earliest `CombatHit` at or after the anchor
/// and before the payout; approach is `duration - combat` when that is not
/// negative.
pub open spec fn align_of(logs: Seq<ListenerLogView>, gap_start: i64, payout: i64, duration: i64) -> (
    Option<i64>,
    Option<i64>,
    EnrichmentSource,
) {
    let ev = all_events(logs);
    match earliest(ev, GamelogEventKind::FollowingWarp, gap_start + 1, payout as int) {
        None => (None, None, EnrichmentSource::Heuristic),
        Some(anchor) => {
            let combat = match earliest(ev, GamelogEventKind::CombatHit, anchor as int, payout - 1) {
                Some(t) => Some((payout - t) as i64),
                None => None,
            };
            let approach = match combat {
                Some(c) => if duration - c >= 0 {
                    Some((duration - c) as i64)
                } else {
                    None
                },
                None => None,
            };
            (approach, combat, EnrichmentSource::Fleet)
        },
    }
}

fn earliest_in(events: &Vec<GamelogEvent>, kind: GamelogEventKind, lo: i64, hi: i64) -> (r: Option<i64>)
    ensures
        r == earliest(events_view(events@), kind, lo as int, hi as int),
{
    let ghost ev = events_view(events@);
    let mut best: Option<i64> = None;
    let mut i: usize = 0;
    while i < events.len()
        invariant
            0 <= i <= events@.len(),
            ev == events_view(events@),
            best == earliest(ev.take(i as int), kind, lo as int, hi as int),
        decreases events@.len() - i,
    {
        assert(ev.take(i + 1).drop_last() =~= ev.take(i as int));
        let e = &events[i];
        if e.kind == kind && lo <= e.occurred_at && e.occurred_at <= hi {
            best = match best {
                Some(m) => if m <= e.occurred_at {
                    Some(m)
                } else {
                    Some(e.occurred_at)
                },
                None => Some(e.occurred_at),
            };
        }
        i = i + 1;
    }
    assert(ev.take(events@.len() as int) =~= ev);
    best
}

fn earliest_pooled(logs: &Vec<ListenerLog>, kind: GamelogEventKind, lo: i64, hi: i64) -> (r: Option<i64>)
    ensures
        r == earliest(all_events(logs_view(logs@)), kind, lo as int, hi as int),
{
    let ghost lv = logs_view(logs@);
    let mut best: Option<i64> = None;
    let mut i: usize = 0;
    while i < logs.len()
        invariant
            0 <= i <= logs@.len(),
            lv == logs_view(logs@),
            best == earliest(all_events(lv.take(i as int)), kind, lo as int, hi as int),
        decreases logs@.len() - i,
    {
        proof {
            assert(lv.take(i + 1).drop_last() =~= lv.take(i as int));
            lemma_earliest_concat(all_events(lv.take(i as int)), lv[i as int].events, kind, lo as int, hi as int);
        }
        let e = earliest_in(&logs[i].events, kind, lo, hi);
        best = match (best, e) {
            (Some(x), Some(y)) => if x <= y {
                Some(x)
            } else {
                Some(y)
            },
            (Some(x), None) => Some(x),
            (None, y) => y,
        };
        i = i + 1;
    }
    assert(lv.take(logs@.len() as int) =~= lv);
    best
}

/// Align a single payout gap that has a known wallet `duration`.
fn align_gap(logs: &Vec<ListenerLog>, gap_start: i64, payout: i64, duration: i64) -> (r: (
    Option<i64>,
    Option<i64>,
    EnrichmentSource,
))
    requires
        valid_ts(gap_start as int),
        valid_ts(payout as int),
    ensures
        r == align_of(logs_view(logs@), gap_start, payout, duration),
{
    let ghost ev = all_events(logs_view(logs@));
    let warp = earliest_pooled(logs, GamelogEventKind::FollowingWarp, gap_start + 1, payout);
    match warp {
        None => (None, None, EnrichmentSource::Heuristic),
        Some(anchor) => {
            proof {
                lemma_earliest_bounds(ev, GamelogEventKind::FollowingWarp, gap_start + 1, payout as int);
            }
            let hit = earliest_pooled(logs, GamelogEventKind::CombatHit, anchor, payout - 1);
            proof {
                lemma_earliest_bounds(ev, GamelogEventKind::CombatHit, anchor as int, payout - 1);
            }
            let combat: Option<i64> = match hit {
                Some(t) => Some(payout - t),
                None => None,
            };
            let approach: Option<i64> = match combat {
                Some(c) => {
                    let residual: i128 = duration as i128 - c as i128;
                    if residual >= 0 {
                        Some(residual as i64)
                    } else {
                        None
                    }
                },
                None => None,
            };
            (approach, combat, EnrichmentSource::Fleet)
        },
    }
}

// ---------------------------------------------------------------- missiles

/// `u32::saturating_mul`.
pub open spec fn sat_mul(a: u32, b: u32) -> u32 {
    if a * b > u32::MAX {
        u32::MAX
    } else {
        (a * b) as u32
    }
}

fn sat_mul_exec(a: u32, b: u32) -> (r: u32)
    ensures
        r == sat_mul(a, b),
{
    assert((a as int) * (b as int) <= 0xffff_ffff * 0xffff_ffff) by (nonlinear_arith)
        requires
            a <= 0xffff_ffff,
            b <= 0xffff_ffff,
    ;
    let p: u64 = a as u64 * b as u64;
    if p > 0xffff_ffff {
        u32::MAX
    } else {
        p as u32
    }
}

/// A missile row from reload and hit counts: missiles per launcher per
/// cycle is `missiles_per_cycle / launchers` (0 without launchers); dead
/// volleys are the expended ones past the hits, each `launchers` missiles.
pub open spec fn stat_of(listener: Seq<char>, reloads: nat, hits: nat, mpc: u32, launchers: u32) -> MissileStatView {
    let reload_cycles = reloads as u32;
    let hit_count = hits as u32;
    let per_launcher: u32 = if launchers == 0 {
        0
    } else {
        (mpc / launchers) as u32
    };
    let expended = sat_mul(reload_cycles, per_launcher);
    let dead_volleys: u32 = if expended >= hit_count {
        (expended - hit_count) as u32
    } else {
        0
    };
    MissileStatView {
        listener,
        reload_cycles,
        hits: hit_count,
        missiles_per_cycle: mpc,
        launchers,
        dead: sat_mul(dead_volleys, launchers),
    }
}

pub open spec fn missile_of(listener: Seq<char>, events: Seq<GamelogEventView>, mpc: u32, launchers: u32) -> MissileStatView {
    stat_of(
        listener,
        kind_count(events, GamelogEventKind::Reload),
        kind_count(events, GamelogEventKind::CombatHit),
        mpc,
        launchers,
    )
}

/// One row per log, over all of its events.
pub open spec fn run_missiles(logs: Seq<ListenerLogView>, mpc: u32, launchers: u32) -> Seq<MissileStatView> {
    Seq::new(logs.len(), |i: int| missile_of(logs[i].listener, logs[i].events, mpc, launchers))
}

/// One row per log, over its events with `lo <= occurred_at <= hi`.
pub open spec fn gap_missiles(logs: Seq<ListenerLogView>, mpc: u32, launchers: u32, lo: int, hi: int) -> Seq<MissileStatView> {
    Seq::new(
        logs.len(),
        |i: int| missile_of(logs[i].listener, between(logs[i].events, lo, hi), mpc, launchers),
    )
}

fn stat_from(listener: &String, reloads: usize, hits: usize, mpc: u32, launchers: u32) -> (r: MissileStat)
    ensures
        r@ == stat_of(listener@, reloads as nat, hits as nat, mpc, launchers),
{
    let reload_cycles = reloads as u32;
    let hit_count = hits as u32;
    let per_launcher: u32 = if launchers == 0 {
        0
    } else {
        mpc / launchers
    };
    let expended = sat_mul_exec(reload_cycles, per_launcher);
    let dead_volleys = expended.saturating_sub(hit_count);
    MissileStat {
        listener: listener.clone(),
        reload_cycles,
        hits: hit_count,
        missiles_per_cycle: mpc,
        launchers,
        dead: sat_mul_exec(dead_volleys, launchers),
    }
}

/// Per-listener dead missiles over the whole of each log.
fn missile_stats(logs: &Vec<ListenerLog>, mpc: u32, launchers: u32) -> (r: Vec<MissileStat>)
    ensures
        missiles_view(r@) == run_missiles(logs_view(logs@), mpc, launchers),
{
    let mut out: Vec<MissileStat> = Vec::new();
    let mut i: usize = 0;
    while i < logs.len()
        invariant
            0 <= i <= logs@.len(),
            out@.len() == i,
            forall|k: int|
                0 <= k < i ==> (#[trigger] out@[k])@ == missile_of(
                    logs@[k].listener@,
                    events_view(logs@[k].events@),
                    mpc,
                    launchers,
                ),
        decreases logs@.len() - i,
    {
        let l = &logs[i];
        let reloads = count_kind(&l.events, GamelogEventKind::Reload);
        let hits = count_kind(&l.events, GamelogEventKind::CombatHit);
        out.push(stat_from(&l.listener, reloads, hits, mpc, launchers));
        i = i + 1;
    }
    assert(missiles_view(out@) =~= run_missiles(logs_view(logs@), mpc, launchers));
    out
}

/// Per-listener dead missiles over the events in `[lo, hi]`.
fn missile_stats_between(logs: &Vec<ListenerLog>, mpc: u32, launchers: u32, lo: i64, hi: i64) -> (r: Vec<MissileStat>)
    ensures
        missiles_view(r@) == gap_missiles(logs_view(logs@), mpc, launchers, lo as int, hi as int),
{
    let mut out: Vec<MissileStat> = Vec::new();
    let mut i: usize = 0;
    while i < logs.len()
        invariant
            0 <= i <= logs@.len(),
            out@.len() == i,
            forall|k: int|
                0 <= k < i ==> (#[trigger] out@[k])@ == missile_of(
                    logs@[k].listener@,
                    between(events_view(logs@[k].events@), lo as int, hi as int),
                    mpc,
                    launchers,
                ),
        decreases logs@.len() - i,
    {
        let l = &logs[i];
        let reloads = count_kind_between(&l.events, GamelogEventKind::Reload, lo, hi);
        let hits = count_kind_between(&l.events, GamelogEventKind::CombatHit, lo, hi);
        out.push(stat_from(&l.listener, reloads, hits, mpc, launchers));
        i = i + 1;
    }
    assert(missiles_view(out@) =~= gap_missiles(logs_view(logs@), mpc, launchers, lo as int, hi as int));
    out
}


// ---------------------------------------------------------------- runs

/// The run window: from the run start (or the first payout, when that is
/// earlier or there is no run start) to the last payout.
pub open spec fn run_window(times: Seq<i64>, run_start: Option<i64>) -> Option<(i64, i64)> {
    if times.len() == 0 {
        None
    } else {
        let first = times[0];
        let start = match run_start {
            Some(rs) => if rs <= first {
                rs
            } else {
                first
            },
            None => first,
        };
        Some((start, times.last()))
    }
}

/// The logs that a run sees: clipped to its window.
pub open spec fn scoped_logs(logs: Seq<ListenerLogView>, times: Seq<i64>, run_start: Option<i64>) -> Seq<ListenerLogView> {
    match run_window(times, run_start) {
        Some((a, b)) => clip_logs(logs, a as int, b as int),
        None => logs,
    }
}

/// The open start of site `i`'s gap: the run start for the first site, the
/// previous payout after that.
pub open spec fn gap_start_of(times: Seq<i64>, run_start: Option<i64>, i: int) -> Option<i64> {
    if i == 0 {
        run_start
    } else {
        Some(times[i - 1])
    }
}

pub open spec fn duration_at(durations: Seq<Option<i64>>, i: int) -> Option<i64> {
    if 0 <= i < durations.len() {
        durations[i]
    } else {
        None
    }
}

/// Inputs of one run's enrichment besides the logs.
pub ghost struct RunInput {
    pub times: Seq<i64>,
    pub durations: Seq<Option<i64>>,
    pub break_minutes: u32,
    pub run_start: Option<i64>,
    pub mpc: u32,
    pub launchers: u32,
}

/// Site `i` of a run: no gap start gives a null, non-break, heuristic row
/// with no missiles; a gap with no wallet duration is a break when it is
/// longer than the threshold and is otherwise null and heuristic; a gap with
/// a duration is aligned (`align_of`). Missiles count the gap's events,
/// except on a break.
pub open spec fn site_of(logs: Seq<ListenerLogView>, run: RunInput, i: int) -> EnrichmentSiteView {
    let t = run.times[i];
    match gap_start_of(run.times, run.run_start, i) {
        None => EnrichmentSiteView {
            occurred_at: t,
            approach_seconds: None,
            combat_to_payout_seconds: None,
            is_break: false,
            source: EnrichmentSource::Heuristic,
            missiles: seq![],
        },
        Some(gs) => match duration_at(run.durations, i) {
            None => {
                let gap = if t - gs > 0 {
                    t - gs
                } else {
                    0
                };
                let is_break = gap > run.break_minutes * 60;
                EnrichmentSiteView {
                    occurred_at: t,
                    approach_seconds: None,
                    combat_to_payout_seconds: None,
                    is_break,
                    source: EnrichmentSource::Heuristic,
                    missiles: if is_break {
                        seq![]
                    } else {
                        gap_missiles(logs, run.mpc, run.launchers, gs + 1, t as int)
                    },
                }
            },
            Some(d) => {
                let (a, c, src) = align_of(logs, gs, t, d);
                EnrichmentSiteView {
                    occurred_at: t,
                    approach_seconds: a,
                    combat_to_payout_seconds: c,
                    is_break: false,
                    source: src,
                    missiles: gap_missiles(logs, run.mpc, run.launchers, gs + 1, t as int),
                }
            },
        },
    }
}

pub open spec fn enriched_sites(logs: Seq<ListenerLogView>, run: RunInput) -> Seq<EnrichmentSiteView> {
    Seq::new(run.times.len(), |i: int| site_of(logs, run, i))
}

pub open spec fn strings_view(v: Seq<String>) -> Seq<Seq<char>> {
    v.map_values(|s: String| s@)
}

pub open spec fn listener_names(logs: Seq<ListenerLogView>) -> Seq<Seq<char>> {
    logs.map_values(|l: ListenerLogView| l.listener)
}

pub open spec fn no_logs_warning() -> DiagnosticView {
    DiagnosticView {
        level: "warn"@,
        message: "No listeners with gamelogs in range; enrichment skipped."@,
    }
}

/// Times that `chrono` can hold.
pub open spec fn run_times_ok(times: Seq<i64>, run_start: Option<i64>) -> bool {
    &&& forall|i: int| 0 <= i < times.len() ==> valid_ts(#[trigger] times[i] as int)
    &&& run_start matches Some(t) ==> valid_ts(t as int)
}

fn enrich_site(
    logs: &Vec<ListenerLog>,
    site_times: &Vec<i64>,
    site_durations: &Vec<Option<i64>>,
    i: usize,
    break_threshold_minutes: u32,
    run_start: Option<i64>,
    missiles_per_cycle: u32,
    launchers: u32,
    run: Ghost<RunInput>,
) -> (r: EnrichmentSite)
    requires
        i < site_times@.len(),
        run_times_ok(site_times@, run_start),
        run@ == (RunInput {
            times: site_times@,
            durations: site_durations@,
            break_minutes: break_threshold_minutes,
            run_start,
            mpc: missiles_per_cycle,
            launchers,
        }),
    ensures
        r@ == site_of(logs_view(logs@), run@, i as int),
{
    let t = site_times[i];
    let gap_start: Option<i64> = if i == 0 {
        run_start
    } else {
        Some(site_times[i - 1])
    };
    let duration: Option<i64> = if i < site_durations.len() {
        site_durations[i]
    } else {
        None
    };
    let empty: Vec<MissileStat> = Vec::new();
    assert(missiles_view(empty@) =~= Seq::<MissileStatView>::empty());
    match gap_start {
        None => EnrichmentSite {
            occurred_at: t,
            approach_seconds: None,
            combat_to_payout_seconds: None,
            is_break: false,
            source: EnrichmentSource::Heuristic,
            missiles: empty,
        },
        Some(gs) => {
            assert(valid_ts(gs as int));
            match duration {
                None => {
                    let d = t - gs;
                    let gap = if d > 0 {
                        d
                    } else {
                        0
                    };
                    let break_secs: i64 = break_threshold_minutes as i64 * 60;
                    let is_break = gap > break_secs;
                    let missiles = if is_break {
                        empty
                    } else {
                        missile_stats_between(logs, missiles_per_cycle, launchers, gs + 1, t)
                    };
                    EnrichmentSite {
                        occurred_at: t,
                        approach_seconds: None,
                        combat_to_payout_seconds: None,
                        is_break,
                        source: EnrichmentSource::Heuristic,
                        missiles,
                    }
                },
                Some(d) => {
                    let (a, c, src) = align_gap(logs, gs, t, d);
                    let missiles = missile_stats_between(logs, missiles_per_cycle, launchers, gs + 1, t);
                    EnrichmentSite {
                        occurred_at: t,
                        approach_seconds: a,
                        combat_to_payout_seconds: c,
                        is_break: false,
                        source: src,
                        missiles,
                    }
                },
            }
        },
    }
}

/// The inputs of `enrich_run` besides the logs and the FC names.
pub open spec fn run_input(
    times: Seq<i64>,
    durations: Seq<Option<i64>>,
    break_minutes: u32,
    run_start: Option<i64>,
    mpc: u32,
    launchers: u32,
) -> RunInput {
    RunInput { times, durations, break_minutes, run_start, mpc, launchers }
}

/// The inputs on which a run's enrichment can be computed: its times are
/// ones `chrono` holds and its totals fit their integer types.
pub open spec fn enrich_fits(logs: Seq<ListenerLogView>, run: RunInput) -> bool {
    let scoped = scoped_logs(logs, run.times, run.run_start);
    &&& run_times_ok(run.times, run.run_start)
    &&& totals_fit(enriched_sites(scoped, run), run_missiles(scoped, run.mpc, run.launchers))
}

/// `r` is the enrichment of a run over `logs`: FC resolved over the run's
/// logs, every listener named, a warning when there are no logs, one site
/// per payout, one missile row per listener, and the totals of those.
pub open spec fn enrichment_of(
    r: EnrichmentSnapshot,
    logs: Seq<ListenerLogView>,
    run: RunInput,
    fc: Option<Seq<char>>,
    hint: Option<Seq<char>>,
) -> bool {
    let scoped = scoped_logs(logs, run.times, run.run_start);
    &&& string_opt(r.resolved_fc) == fc_of(scoped, fc, hint)
    &&& strings_view(r.listeners@) == listener_names(logs)
    &&& diagnostics_view(r.diagnostics@) == if logs.len() == 0 {
        seq![no_logs_warning()]
    } else {
        Seq::<DiagnosticView>::empty()
    }
    &&& sites_view(r.sites@) == enriched_sites(scoped, run)
    &&& missiles_view(r.missiles@) == run_missiles(scoped, run.mpc, run.launchers)
    &&& r.totals == totals_of(sites_view(r.sites@), missiles_view(r.missiles@))
}

/// Everything of a run's enrichment but the totals.
fn enrich_parts(
    logs: &Vec<ListenerLog>,
    site_times: &Vec<i64>,
    site_durations: &Vec<Option<i64>>,
    break_threshold_minutes: u32,
    run_start: Option<i64>,
    missiles_per_cycle: u32,
    launchers: u32,
    fc_character: Option<&str>,
    wallet_fc_hint: Option<&str>,
) -> (r: (Option<String>, Vec<String>, Vec<Diagnostic>, Vec<EnrichmentSite>, Vec<MissileStat>))
    requires
        run_times_ok(site_times@, run_start),
    ensures
        ({
            let run = run_input(
                site_times@,
                site_durations@,
                break_threshold_minutes,
                run_start,
                missiles_per_cycle,
                launchers,
            );
            let scoped = scoped_logs(logs_view(logs@), site_times@, run_start);
            &&& string_opt(r.0) == fc_of(scoped, str_opt(fc_character), str_opt(wallet_fc_hint))
            &&& strings_view(r.1@) == listener_names(logs_view(logs@))
            &&& diagnostics_view(r.2@) == if logs@.len() == 0 {
                seq![no_logs_warning()]
            } else {
                Seq::<DiagnosticView>::empty()
            }
            &&& sites_view(r.3@) == enriched_sites(scoped, run)
            &&& missiles_view(r.4@) == run_missiles(scoped, missiles_per_cycle, launchers)
        }),
{
    let ghost run = run_input(
        site_times@,
        site_durations@,
        break_threshold_minutes,
        run_start,
        missiles_per_cycle,
        launchers,
    );
    let ghost scoped_v = scoped_logs(logs_view(logs@), site_times@, run_start);
    let mut diagnostics: Vec<Diagnostic> = Vec::new();
    if logs.len() == 0 {
        diagnostics.push(
            Diagnostic {
                level: String::from_str("warn"),
                message: String::from_str("No listeners with gamelogs in range; enrichment skipped."),
            },
        );
    }
    let mut listeners: Vec<String> = Vec::new();
    let mut k: usize = 0;
    while k < logs.len()
        invariant
            0 <= k <= logs@.len(),
            listeners@.len() == k,
            forall|j: int| 0 <= j < k ==> (#[trigger] listeners@[j])@ == logs@[j].listener@,
        decreases logs@.len() - k,
    {
        listeners.push(logs[k].listener.clone());
        k = k + 1;
    }
    assert(strings_view(listeners@) =~= listener_names(logs_view(logs@)));
    let scoped: Vec<ListenerLog> = if site_times.len() > 0 {
        let first = site_times[0];
        let start = match run_start {
            Some(rs) => if rs <= first {
                rs
            } else {
                first
            },
            None => first,
        };
        let last = site_times[site_times.len() - 1];
        clip_to_window(logs, start, last)
    } else {
        proof {
            let lv = logs_view(logs@);
            assert forall|j: int| 0 <= j < lv.len() implies #[trigger] clip_logs(lv, i64::MIN as int, i64::MAX as int)[j] == lv[j] by {
                lemma_between_all(lv[j].events);
            }
            assert(clip_logs(lv, i64::MIN as int, i64::MAX as int) =~= lv);
        }
        clip_to_window(logs, i64::MIN, i64::MAX)
    };
    assert(logs_view(scoped@) == scoped_v);
    let resolved_fc = resolve_fc(&scoped, fc_character, wallet_fc_hint);
    let mut sites: Vec<EnrichmentSite> = Vec::new();
    let mut i: usize = 0;
    while i < site_times.len()
        invariant
            0 <= i <= site_times@.len(),
            run_times_ok(site_times@, run_start),
            logs_view(scoped@) == scoped_v,
            run == run_input(
                site_times@,
                site_durations@,
                break_threshold_minutes,
                run_start,
                missiles_per_cycle,
                launchers,
            ),
            sites@.len() == i,
            forall|j: int| 0 <= j < i ==> (#[trigger] sites@[j])@ == site_of(scoped_v, run, j),
        decreases site_times@.len() - i,
    {
        let site = enrich_site(
            &scoped,
            site_times,
            site_durations,
            i,
            break_threshold_minutes,
            run_start,
            missiles_per_cycle,
            launchers,
            Ghost(run),
        );
        sites.push(site);
        i = i + 1;
    }
    assert(sites_view(sites@) =~= enriched_sites(scoped_v, run));
    let missiles = missile_stats(&scoped, missiles_per_cycle, launchers);
    assert(diagnostics_view(diagnostics@) =~= if logs@.len() == 0 {
        seq![no_logs_warning()]
    } else {
        Seq::<DiagnosticView>::empty()
    });
    (resolved_fc, listeners, diagnostics, sites, missiles)
}

/// Enrich a sealed run's wallet sites with gamelog-derived approach /
/// combat→payout splits and per-character dead-missile counts.
///
/// `site_durations` is parallel to `site_times`: the wallet-reported duration
/// of each site (`None` marks a break or an otherwise uncounted site). All of
/// the alignment, FC resolution and missile math sees only the events inside
/// the run window.
pub fn enrich_run(
    logs: &Vec<ListenerLog>,
    site_times: &Vec<i64>,
    site_durations: &Vec<Option<i64>>,
    break_threshold_minutes: u32,
    run_start: Option<i64>,
    missiles_per_cycle: u32,
    launchers: u32,
    fc_character: Option<&str>,
    wallet_fc_hint: Option<&str>,
) -> (r: EnrichmentSnapshot)
    requires
        enrich_fits(
            logs_view(logs@),
            run_input(
                site_times@,
                site_durations@,
                break_threshold_minutes,
                run_start,
                missiles_per_cycle,
                launchers,
            ),
        ),
    ensures
        enrichment_of(
            r,
            logs_view(logs@),
            run_input(
                site_times@,
                site_durations@,
                break_threshold_minutes,
                run_start,
                missiles_per_cycle,
                launchers,
            ),
            str_opt(fc_character),
            str_opt(wallet_fc_hint),
        ),
{
    let (resolved_fc, listeners, diagnostics, sites, missiles) = enrich_parts(
        logs,
        site_times,
        site_durations,
        break_threshold_minutes,
        run_start,
        missiles_per_cycle,
        launchers,
        fc_character,
        wallet_fc_hint,
    );
    let totals = enrichment_totals(&sites, &missiles);
    EnrichmentSnapshot { resolved_fc, listeners, diagnostics, sites, missiles, totals }
}

/// Whether every time can be held by `chrono`.
fn run_times_check(site_times: &Vec<i64>, run_start: Option<i64>) -> (b: bool)
    ensures
        b == run_times_ok(site_times@, run_start),
{
    if let Some(t) = run_start {
        if t < MIN_TS || t > MAX_TS {
            return false;
        }
    }
    let mut i: usize = 0;
    while i < site_times.len()
        invariant
            0 <= i <= site_times@.len(),
            forall|j: int| 0 <= j < i ==> valid_ts(#[trigger] site_times@[j] as int),
        decreases site_times@.len() - i,
    {
        if site_times[i] < MIN_TS || site_times[i] > MAX_TS {
            return false;
        }
        i = i + 1;
    }
    true
}

/// `enrich_run` where its inputs allow it; `None` where a time is out of
/// `chrono`'s range or a total would overflow.
pub fn try_enrich_run(
    logs: &Vec<ListenerLog>,
    site_times: &Vec<i64>,
    site_durations: &Vec<Option<i64>>,
    break_threshold_minutes: u32,
    run_start: Option<i64>,
    missiles_per_cycle: u32,
    launchers: u32,
    fc_character: Option<&str>,
    wallet_fc_hint: Option<&str>,
) -> (r: Option<EnrichmentSnapshot>)
    ensures
        ({
            let run = run_input(
                site_times@,
                site_durations@,
                break_threshold_minutes,
                run_start,
                missiles_per_cycle,
                launchers,
            );
            &&& r is Some <==> enrich_fits(logs_view(logs@), run)
            &&& r matches Some(s) ==> enrichment_of(
                s,
                logs_view(logs@),
                run,
                str_opt(fc_character),
                str_opt(wallet_fc_hint),
            )
        }),
{
    if !run_times_check(site_times, run_start) {
        return None;
    }
    let (resolved_fc, listeners, diagnostics, sites, missiles) = enrich_parts(
        logs,
        site_times,
        site_durations,
        break_threshold_minutes,
        run_start,
        missiles_per_cycle,
        launchers,
        fc_character,
        wallet_fc_hint,
    );
    if !totals_fit_check(&sites, &missiles) {
        return None;
    }
    let totals = enrichment_totals(&sites, &missiles);
    Some(EnrichmentSnapshot { resolved_fc, listeners, diagnostics, sites, missiles, totals })
}


// ---------------------------------------------------------------- aggregate

/// The snapshots of `(run_id, snapshot)` pairs.
pub open spec fn snapshots_of(runs: Seq<(String, EnrichmentSnapshot)>) -> Seq<EnrichmentSnapshot> {
    runs.map_values(|r: (String, EnrichmentSnapshot)| r.1)
}

pub open spec fn all_sites(s: Seq<EnrichmentSnapshot>) -> Seq<EnrichmentSiteView>
    decreases s.len(),
{
    if s.len() == 0 {
        seq![]
    } else {
        all_sites(s.drop_last()) + sites_view(s.last().sites@)
    }
}

pub open spec fn all_rows(s: Seq<EnrichmentSnapshot>) -> Seq<MissileStatView>
    decreases s.len(),
{
    if s.len() == 0 {
        seq![]
    } else {
        all_rows(s.drop_last()) + missiles_view(s.last().missiles@)
    }
}

pub open spec fn all_listeners(s: Seq<EnrichmentSnapshot>) -> Seq<Seq<char>>
    decreases s.len(),
{
    if s.len() == 0 {
        seq![]
    } else {
        all_listeners(s.drop_last()) + strings_view(s.last().listeners@)
    }
}

pub open spec fn all_diagnostics(s: Seq<EnrichmentSnapshot>) -> Seq<DiagnosticView>
    decreases s.len(),
{
    if s.len() == 0 {
        seq![]
    } else {
        all_diagnostics(s.drop_last()) + diagnostics_view(s.last().diagnostics@)
    }
}

/// `s` with every repeat dropped, first occurrences in order.
pub open spec fn dedup<A>(s: Seq<A>) -> Seq<A>
    decreases s.len(),
{
    if s.len() == 0 {
        seq![]
    } else {
        let d = dedup(s.drop_last());
        if d.contains(s.last()) {
            d
        } else {
            d.push(s.last())
        }
    }
}

/// Listener names of `m`, each once, in order of first appearance.
pub open spec fn row_names(m: Seq<MissileStatView>) -> Seq<Seq<char>>
    decreases m.len(),
{
    if m.len() == 0 {
        seq![]
    } else {
        let d = row_names(m.drop_last());
        if d.contains(m.last().listener) {
            d
        } else {
            d.push(m.last().listener)
        }
    }
}

pub ghost struct Tally {
    pub reload_cycles: int,
    pub hits: int,
    pub dead: int,
}

/// Summed reloads, hits and dead missiles of the rows of listener `n`.
pub open spec fn tally(m: Seq<MissileStatView>, n: Seq<char>) -> Tally
    decreases m.len(),
{
    if m.len() == 0 {
        Tally { reload_cycles: 0, hits: 0, dead: 0 }
    } else {
        let t = tally(m.drop_last(), n);
        let x = m.last();
        if x.listener == n {
            Tally {
                reload_cycles: t.reload_cycles + x.reload_cycles,
                hits: t.hits + x.hits,
                dead: t.dead + x.dead,
            }
        } else {
            t
        }
    }
}

/// The last row of listener `n`.
pub open spec fn last_row(m: Seq<MissileStatView>, n: Seq<char>) -> MissileStatView
    decreases m.len(),
{
    if m.len() == 0 {
        arbitrary()
    } else if m.last().listener == n {
        m.last()
    } else {
        last_row(m.drop_last(), n)
    }
}

/// One row per listener, in order of first appearance: reloads, hits and
/// dead missiles summed over its rows; missiles per cycle and launchers from
/// its latest row.
pub open spec fn merged_rows(m: Seq<MissileStatView>) -> Seq<MissileStatView> {
    Seq::new(
        row_names(m).len(),
        |k: int|
            {
                let n = row_names(m)[k];
                let t = tally(m, n);
                MissileStatView {
                    listener: n,
                    reload_cycles: t.reload_cycles as u32,
                    hits: t.hits as u32,
                    missiles_per_cycle: last_row(m, n).missiles_per_cycle,
                    launchers: last_row(m, n).launchers,
                    dead: t.dead as u32,
                }
            },
    )
}

/// No listener's sums overflow `u32`.
pub open spec fn tallies_fit(m: Seq<MissileStatView>) -> bool {
    forall|n: Seq<char>|
        #![trigger tally(m, n)]
        tally(m, n).reload_cycles <= u32::MAX && tally(m, n).hits <= u32::MAX && tally(m, n).dead
            <= u32::MAX
}

pub open spec fn lack_warning(missing: nat, scope: nat) -> DiagnosticView {
    DiagnosticView {
        level: "warn"@,
        message: decimal(missing) + " of "@ + decimal(scope) + " runs lack enrichment"@,
    }
}

proof fn lemma_tally_nonneg(m: Seq<MissileStatView>, n: Seq<char>)
    ensures
        tally(m, n).reload_cycles >= 0,
        tally(m, n).hits >= 0,
        tally(m, n).dead >= 0,
    decreases m.len(),
{
    if m.len() > 0 {
        lemma_tally_nonneg(m.drop_last(), n);
    }
}

proof fn lemma_tally_prefix(m: Seq<MissileStatView>, k: int, n: Seq<char>)
    requires
        0 <= k <= m.len(),
    ensures
        tally(m.take(k), n).reload_cycles <= tally(m, n).reload_cycles,
        tally(m.take(k), n).hits <= tally(m, n).hits,
        tally(m.take(k), n).dead <= tally(m, n).dead,
    decreases m.len() - k,
{
    if k < m.len() {
        lemma_tally_prefix(m, k + 1, n);
        assert(m.take(k + 1).drop_last() =~= m.take(k));
    } else {
        assert(m.take(k) =~= m);
    }
}

proof fn lemma_row_names(m: Seq<MissileStatView>)
    ensures
        forall|i: int, j: int|
            0 <= i < j < row_names(m).len() ==> (#[trigger] row_names(m)[i]) != (#[trigger] row_names(m)[j]),
        forall|n: Seq<char>|
            #[trigger] row_names(m).contains(n) <==> exists|i: int|
                0 <= i < m.len() && (#[trigger] m[i]).listener == n,
    decreases m.len(),
{
    if m.len() > 0 {
        let p = m.drop_last();
        lemma_row_names(p);
        assert forall|n: Seq<char>|
            #[trigger] row_names(m).contains(n) <==> exists|i: int|
                0 <= i < m.len() && (#[trigger] m[i]).listener == n by {
            if row_names(m).contains(n) {
                if row_names(p).contains(n) {
                    let i = choose|i: int| 0 <= i < p.len() && (#[trigger] p[i]).listener == n;
                    assert(m[i] == p[i]);
                } else {
                    assert(m[m.len() - 1].listener == n);
                }
            }
            if exists|i: int| 0 <= i < m.len() && (#[trigger] m[i]).listener == n {
                let i = choose|i: int| 0 <= i < m.len() && (#[trigger] m[i]).listener == n;
                if i < m.len() - 1 {
                    assert(p[i] == m[i]);
                    assert(row_names(p).contains(n));
                    if !row_names(p).contains(m.last().listener) {
                        assert(row_names(m) == row_names(p).push(m.last().listener));
                        let k = choose|k: int| 0 <= k < row_names(p).len() && row_names(p)[k] == n;
                        assert(row_names(m)[k] == n);
                    }
                } else {
                    if !row_names(p).contains(n) {
                        assert(row_names(m) == row_names(p).push(n));
                        assert(row_names(m)[row_names(m).len() - 1] == n);
                    }
                }
            }
        }
    }
}

proof fn lemma_tally_absent(m: Seq<MissileStatView>, n: Seq<char>)
    requires
        forall|i: int| 0 <= i < m.len() ==> (#[trigger] m[i]).listener != n,
    ensures
        tally(m, n) == (Tally { reload_cycles: 0, hits: 0, dead: 0 }),
    decreases m.len(),
{
    if m.len() > 0 {
        let p = m.drop_last();
        assert forall|i: int| 0 <= i < p.len() implies (#[trigger] p[i]).listener != n by {
            assert(p[i] == m[i]);
        }
        lemma_tally_absent(p, n);
        assert(m[m.len() - 1] == m.last());
    }
}

/// The sums of listener `n` fit `u32`.
pub open spec fn tally_fits(m: Seq<MissileStatView>, n: Seq<char>) -> bool {
    tally(m, n).reload_cycles <= u32::MAX && tally(m, n).hits <= u32::MAX && tally(m, n).dead <= u32::MAX
}

/// Adds row `x` into `merged`, which holds `merged_rows(p)`, when the sums of
/// its listener still fit; `false`, and `merged` unchanged, when they do not.
fn merge_row(merged: &mut Vec<MissileStat>, x: &MissileStat, p: Ghost<Seq<MissileStatView>>) -> (ok: bool)
    requires
        missiles_view(old(merged)@) == merged_rows(p@),
        tallies_fit(p@),
    ensures
        ok == tally_fits(p@.push(x@), x.listener@),
        ok ==> tallies_fit(p@.push(x@)),
        ok ==> missiles_view(final(merged)@) == merged_rows(p@.push(x@)),
{
    let ghost q = p@.push(x@);
    let ghost names = row_names(p@);
    proof {
        assert(q.drop_last() =~= p@);
        assert(q.last() == x@);
        lemma_row_names(p@);
        lemma_row_names(q);
    }
    let mut k: usize = 0;
    while k < merged.len() && !(merged[k].listener == x.listener)
        invariant
            0 <= k <= merged@.len(),
            missiles_view(merged@) == merged_rows(p@),
            forall|j: int| 0 <= j < k ==> (#[trigger] merged@[j]).listener@ != x.listener@,
        decreases merged@.len() - k,
    {
        k = k + 1;
    }
    let ghost before = merged@;
    assert(missiles_view(before).len() == before.len());
    assert(before.len() == names.len());
    assert forall|j: int| 0 <= j < before.len() implies (#[trigger] before[j]).listener@ == names[j] by {
        assert(missiles_view(before)[j] == before[j]@);
    }
    if k < merged.len() {
        let name = x.listener.clone();
        assert(names[k as int] == x.listener@);
        assert(names.contains(x.listener@));
        assert(row_names(q) == names);
        let prev_reload = merged[k].reload_cycles;
        let prev_hits = merged[k].hits;
        let prev_dead = merged[k].dead;
        proof {
            let n = x.listener@;
            lemma_tally_nonneg(p@, n);
            assert(tally(q, n).reload_cycles == tally(p@, n).reload_cycles + x.reload_cycles);
            assert(missiles_view(before)[k as int] == before[k as int]@);
            assert(merged_rows(p@)[k as int].reload_cycles == tally(p@, n).reload_cycles as u32);
            assert(prev_reload == tally(p@, n).reload_cycles);
            assert(prev_hits == tally(p@, n).hits);
            assert(prev_dead == tally(p@, n).dead);
        }
        if prev_reload as u64 + x.reload_cycles as u64 > u32::MAX as u64 || prev_hits as u64 + x.hits as u64
            > u32::MAX as u64 || prev_dead as u64 + x.dead as u64 > u32::MAX as u64 {
            return false;
        }
        proof {
            let n = x.listener@;
            assert forall|m: Seq<char>| #![trigger tally(q, m)] tally_fits(q, m) by {
                if m != n {
                    assert(tally(q, m) == tally(p@, m));
                    assert(tally_fits(p@, m));
                }
            }
            assert(tally(q, n).reload_cycles <= u32::MAX);
        }
        let updated = MissileStat {
            listener: name,
            reload_cycles: prev_reload + x.reload_cycles,
            hits: prev_hits + x.hits,
            missiles_per_cycle: x.missiles_per_cycle,
            launchers: x.launchers,
            dead: prev_dead + x.dead,
        };
        merged.set(k, updated);
        proof {
            assert forall|j: int| 0 <= j < names.len() implies #[trigger] missiles_view(merged@)[j]
                == merged_rows(q)[j] by {
                if j != k {
                    assert(names[j] != names[k as int]);
                    assert(merged@[j] == before[j]);
                    assert(missiles_view(before)[j] == merged_rows(p@)[j]);
                }
            }
            assert(missiles_view(merged@) =~= merged_rows(q));
        }
    } else {
        proof {
            assert forall|j: int| 0 <= j < names.len() implies names[j] != x.listener@ by {
                assert(before[j].listener@ == names[j]);
            }
            assert(!names.contains(x.listener@));
            assert(row_names(q) == names.push(x.listener@));
            assert forall|i: int| 0 <= i < p@.len() implies (#[trigger] p@[i]).listener != x.listener@ by {
                if p@[i].listener == x.listener@ {
                    assert(names.contains(x.listener@));
                }
            }
            lemma_tally_absent(p@, x.listener@);
            assert(tally(q, x.listener@).reload_cycles <= u32::MAX);
            assert forall|m: Seq<char>| #![trigger tally(q, m)] tally_fits(q, m) by {
                if m != x.listener@ {
                    assert(tally(q, m) == tally(p@, m));
                    assert(tally_fits(p@, m));
                }
            }
        }
        merged.push(x.copied());
        proof {
            assert forall|j: int| 0 <= j < names.len() + 1 implies #[trigger] missiles_view(merged@)[j]
                == merged_rows(q)[j] by {
                if j < names.len() {
                    assert(names[j] != x.listener@);
                    assert(merged@[j] == before[j]);
                    assert(missiles_view(before)[j] == merged_rows(p@)[j]);
                }
            }
            assert(missiles_view(merged@) =~= merged_rows(q));
        }
    }
    true
}

/// One row per listener of `rows` (`merged_rows`), or `None` when a
/// listener's sums overflow `u32`.
fn merged_missiles(rows: &Vec<MissileStat>) -> (r: Option<Vec<MissileStat>>)
    ensures
        r is Some <==> tallies_fit(missiles_view(rows@)),
        r matches Some(v) ==> missiles_view(v@) == merged_rows(missiles_view(rows@)),
{
    let ghost all = missiles_view(rows@);
    let mut missiles: Vec<MissileStat> = Vec::new();
    let mut j: usize = 0;
    assert(missiles_view(missiles@) =~= merged_rows(all.take(0)));
    proof {
        assert forall|n: Seq<char>| #![trigger tally(all.take(0), n)] tally_fits(all.take(0), n) by {
            assert(all.take(0).len() == 0);
        }
    }
    while j < rows.len()
        invariant
            0 <= j <= rows@.len(),
            all == missiles_view(rows@),
            tallies_fit(all.take(j as int)),
            missiles_view(missiles@) == merged_rows(all.take(j as int)),
        decreases rows@.len() - j,
    {
        proof {
            assert(all.take(j + 1) =~= all.take(j as int).push(rows@[j as int]@));
        }
        let ok = merge_row(&mut missiles, &rows[j], Ghost(all.take(j as int)));
        if !ok {
            proof {
                let n = rows@[j as int].listener@;
                lemma_tally_prefix(all, j + 1, n);
                assert(!tally_fits(all, n));
            }
            return None;
        }
        j = j + 1;
    }
    assert(all.take(rows@.len() as int) =~= all);
    Some(missiles)
}


/// Appends `x` to `out`, which holds `dedup(p)`, unless it is there already.
fn push_new_string(out: &mut Vec<String>, x: &String, p: Ghost<Seq<Seq<char>>>)
    requires
        strings_view(old(out)@) == dedup(p@),
    ensures
        strings_view(final(out)@) == dedup(p@.push(x@)),
{
    let ghost q = p@.push(x@);
    assert(q.drop_last() =~= p@);
    let ghost before = strings_view(out@);
    let mut k: usize = 0;
    while k < out.len()
        invariant
            0 <= k <= out@.len(),
            strings_view(out@) == before,
            before == dedup(p@),
            q == p@.push(x@),
            q.drop_last() == p@,
            forall|j: int| 0 <= j < k ==> (#[trigger] out@[j])@ != x@,
        decreases out@.len() - k,
    {
        if out[k] == *x {
            assert(before[k as int] == x@);
            assert(before.contains(x@));
            return;
        }
        k = k + 1;
    }
    assert forall|j: int| 0 <= j < before.len() implies before[j] != x@ by {
        assert(before[j] == out@[j]@);
    }
    assert(!before.contains(x@));
    out.push(x.clone());
    assert(strings_view(out@) =~= before.push(x@));
}

/// Appends `d` to `out`, which holds `dedup(p)`, unless an equal diagnostic
/// is there already.
fn push_new_diagnostic(out: &mut Vec<Diagnostic>, d: &Diagnostic, p: Ghost<Seq<DiagnosticView>>)
    requires
        diagnostics_view(old(out)@) == dedup(p@),
    ensures
        diagnostics_view(final(out)@) == dedup(p@.push(d@)),
{
    let ghost q = p@.push(d@);
    assert(q.drop_last() =~= p@);
    let ghost before = diagnostics_view(out@);
    let mut k: usize = 0;
    while k < out.len()
        invariant
            0 <= k <= out@.len(),
            diagnostics_view(out@) == before,
            before == dedup(p@),
            q == p@.push(d@),
            q.drop_last() == p@,
            forall|j: int| 0 <= j < k ==> (#[trigger] out@[j])@ != d@,
        decreases out@.len() - k,
    {
        if out[k].level == d.level && out[k].message == d.message {
            assert(before[k as int] == d@);
            assert(before.contains(d@));
            return;
        }
        k = k + 1;
    }
    assert forall|j: int| 0 <= j < before.len() implies before[j] != d@ by {
        assert(before[j] == out@[j]@);
    }
    assert(!before.contains(d@));
    out.push(d.copied());
    assert(diagnostics_view(out@) =~= before.push(d@));
}

/// Every missile row of every snapshot, run by run.
fn flatten_rows(runs: &Vec<(String, EnrichmentSnapshot)>) -> (r: Vec<MissileStat>)
    ensures
        missiles_view(r@) == all_rows(snapshots_of(runs@)),
{
    let ghost snaps = snapshots_of(runs@);
    let mut out: Vec<MissileStat> = Vec::new();
    let mut i: usize = 0;
    while i < runs.len()
        invariant
            0 <= i <= runs@.len(),
            snaps == snapshots_of(runs@),
            missiles_view(out@) == all_rows(snaps.take(i as int)),
        decreases runs@.len() - i,
    {
        let cur = &runs[i].1.missiles;
        let ghost base = all_rows(snaps.take(i as int));
        assert(snaps[i as int] == runs@[i as int].1);
        let mut j: usize = 0;
        assert(base + missiles_view(cur@).take(0) =~= base);
        while j < cur.len()
            invariant
                0 <= j <= cur@.len(),
                missiles_view(out@) == base + missiles_view(cur@).take(j as int),
            decreases cur@.len() - j,
        {
            let ghost before = out@;
            out.push(cur[j].copied());
            assert(missiles_view(out@) =~= missiles_view(before).push(cur@[j as int]@));
            assert(base + missiles_view(cur@).take(j + 1) =~= (base + missiles_view(cur@).take(
                j as int,
            )).push(cur@[j as int]@));
            j = j + 1;
        }
        assert(missiles_view(cur@).take(cur@.len() as int) =~= missiles_view(cur@));
        assert(snaps.take(i + 1).drop_last() =~= snaps.take(i as int));
        i = i + 1;
    }
    assert(snaps.take(runs@.len() as int) =~= snaps);
    out
}

/// Every site of every snapshot, run by run.
fn flatten_sites(runs: &Vec<(String, EnrichmentSnapshot)>) -> (r: Vec<EnrichmentSite>)
    ensures
        sites_view(r@) == all_sites(snapshots_of(runs@)),
{
    let ghost snaps = snapshots_of(runs@);
    let mut out: Vec<EnrichmentSite> = Vec::new();
    let mut i: usize = 0;
    while i < runs.len()
        invariant
            0 <= i <= runs@.len(),
            snaps == snapshots_of(runs@),
            sites_view(out@) == all_sites(snaps.take(i as int)),
        decreases runs@.len() - i,
    {
        let cur = &runs[i].1.sites;
        let ghost base = all_sites(snaps.take(i as int));
        assert(snaps[i as int] == runs@[i as int].1);
        let mut j: usize = 0;
        assert(base + sites_view(cur@).take(0) =~= base);
        while j < cur.len()
            invariant
                0 <= j <= cur@.len(),
                sites_view(out@) == base + sites_view(cur@).take(j as int),
            decreases cur@.len() - j,
        {
            let ghost before = out@;
            out.push(cur[j].copied());
            assert(sites_view(out@) =~= sites_view(before).push(cur@[j as int]@));
            assert(base + sites_view(cur@).take(j + 1) =~= (base + sites_view(cur@).take(
                j as int,
            )).push(cur@[j as int]@));
            j = j + 1;
        }
        assert(sites_view(cur@).take(cur@.len() as int) =~= sites_view(cur@));
        assert(snaps.take(i + 1).drop_last() =~= snaps.take(i as int));
        i = i + 1;
    }
    assert(snaps.take(runs@.len() as int) =~= snaps);
    out
}

/// Listener names of every snapshot, each once, in order of first appearance.
fn union_listeners(runs: &Vec<(String, EnrichmentSnapshot)>) -> (r: Vec<String>)
    ensures
        strings_view(r@) == dedup(all_listeners(snapshots_of(runs@))),
{
    let ghost snaps = snapshots_of(runs@);
    let mut out: Vec<String> = Vec::new();
    let mut i: usize = 0;
    assert(strings_view(out@) =~= dedup(all_listeners(snaps.take(0))));
    while i < runs.len()
        invariant
            0 <= i <= runs@.len(),
            snaps == snapshots_of(runs@),
            strings_view(out@) == dedup(all_listeners(snaps.take(i as int))),
        decreases runs@.len() - i,
    {
        let cur = &runs[i].1.listeners;
        let ghost base = all_listeners(snaps.take(i as int));
        assert(snaps[i as int] == runs@[i as int].1);
        let mut j: usize = 0;
        assert(base + strings_view(cur@).take(0) =~= base);
        while j < cur.len()
            invariant
                0 <= j <= cur@.len(),
                strings_view(out@) == dedup(base + strings_view(cur@).take(j as int)),
            decreases cur@.len() - j,
        {
            push_new_string(&mut out, &cur[j], Ghost(base + strings_view(cur@).take(j as int)));
            assert(base + strings_view(cur@).take(j + 1) =~= (base + strings_view(cur@).take(
                j as int,
            )).push(cur@[j as int]@));
            j = j + 1;
        }
        assert(strings_view(cur@).take(cur@.len() as int) =~= strings_view(cur@));
        assert(snaps.take(i + 1).drop_last() =~= snaps.take(i as int));
        i = i + 1;
    }
    assert(snaps.take(runs@.len() as int) =~= snaps);
    out
}

/// Diagnostics of every snapshot, each (level, message) once, in order of
/// first appearance.
fn union_diagnostics(runs: &Vec<(String, EnrichmentSnapshot)>) -> (r: Vec<Diagnostic>)
    ensures
        diagnostics_view(r@) == dedup(all_diagnostics(snapshots_of(runs@))),
{
    let ghost snaps = snapshots_of(runs@);
    let mut out: Vec<Diagnostic> = Vec::new();
    let mut i: usize = 0;
    assert(diagnostics_view(out@) =~= dedup(all_diagnostics(snaps.take(0))));
    while i < runs.len()
        invariant
            0 <= i <= runs@.len(),
            snaps == snapshots_of(runs@),
            diagnostics_view(out@) == dedup(all_diagnostics(snaps.take(i as int))),
        decreases runs@.len() - i,
    {
        let cur = &runs[i].1.diagnostics;
        let ghost base = all_diagnostics(snaps.take(i as int));
        assert(snaps[i as int] == runs@[i as int].1);
        let mut j: usize = 0;
        assert(base + diagnostics_view(cur@).take(0) =~= base);
        while j < cur.len()
            invariant
                0 <= j <= cur@.len(),
                diagnostics_view(out@) == dedup(base + diagnostics_view(cur@).take(j as int)),
            decreases cur@.len() - j,
        {
            push_new_diagnostic(&mut out, &cur[j], Ghost(base + diagnostics_view(cur@).take(j as int)));
            assert(base + diagnostics_view(cur@).take(j + 1) =~= (base + diagnostics_view(
                cur@,
            ).take(j as int)).push(cur@[j as int]@));
            j = j + 1;
        }
        assert(diagnostics_view(cur@).take(cur@.len() as int) =~= diagnostics_view(cur@));
        assert(snaps.take(i + 1).drop_last() =~= snaps.take(i as int));
        i = i + 1;
    }
    assert(snaps.take(runs@.len() as int) =~= snaps);
    out
}

/// The runs' rows and totals fit their integer types.
pub open spec fn aggregate_fits(snaps: Seq<EnrichmentSnapshot>) -> bool {
    &&& tallies_fit(all_rows(snaps))
    &&& totals_fit(all_sites(snaps), merged_rows(all_rows(snaps)))
}

/// `r` aggregates `runs` within a scope of `scope_run_count` runs: the FC of
/// the latest run, the listeners and diagnostics of all runs without
/// repeats (and a warning when some runs of the scope lack a snapshot), all
/// sites in order, one missile row per listener, and the totals of those.
pub open spec fn aggregate_of(r: EnrichmentSnapshot, runs: Seq<(String, EnrichmentSnapshot)>, scope_run_count: usize) -> bool {
    let snaps = snapshots_of(runs);
    &&& string_opt(r.resolved_fc) == if snaps.len() == 0 {
        None
    } else {
        string_opt(snaps.last().resolved_fc)
    }
    &&& strings_view(r.listeners@) == dedup(all_listeners(snaps))
    &&& diagnostics_view(r.diagnostics@) == dedup(all_diagnostics(snaps)) + if runs.len() < scope_run_count {
        seq![lack_warning((scope_run_count - runs.len()) as nat, scope_run_count as nat)]
    } else {
        Seq::<DiagnosticView>::empty()
    }
    &&& sites_view(r.sites@) == all_sites(snaps)
    &&& missiles_view(r.missiles@) == merged_rows(all_rows(snaps))
    &&& r.totals == totals_of(sites_view(r.sites@), missiles_view(r.missiles@))
}

/// Merge per-run enrichment snapshots into one for a Spawn/Overall scope.
///
/// `runs` holds `(run_id, snapshot)` for every run in scope with a snapshot,
/// oldest first, so that "latest run wins" picks the right row (missiles per
/// cycle, launchers, resolved FC). A listener's missiles per cycle and
/// launchers are those of its latest row, as the documented merge says
/// ("latest contributing run wins"). `scope_run_count` is the number of runs in
/// scope, enriched or not; when it is larger, a warning says how many lack
/// enrichment.
pub fn aggregate_enrichments(runs: &Vec<(String, EnrichmentSnapshot)>, scope_run_count: usize) -> (r: EnrichmentSnapshot)
    requires
        aggregate_fits(snapshots_of(runs@)),
    ensures
        aggregate_of(r, runs@, scope_run_count),
{
    let sites = flatten_sites(runs);
    let rows = flatten_rows(runs);
    let missiles = match merged_missiles(&rows) {
        Some(m) => m,
        None => Vec::new(),
    };
    aggregate_with(runs, scope_run_count, sites, missiles)
}

/// `aggregate_enrichments` where its inputs allow it; `None` where a
/// listener's sums or a total would overflow.
pub fn try_aggregate_enrichments(runs: &Vec<(String, EnrichmentSnapshot)>, scope_run_count: usize) -> (r: Option<
    EnrichmentSnapshot,
>)
    ensures
        r is Some <==> aggregate_fits(snapshots_of(runs@)),
        r matches Some(s) ==> aggregate_of(s, runs@, scope_run_count),
{
    let sites = flatten_sites(runs);
    let rows = flatten_rows(runs);
    let missiles = match merged_missiles(&rows) {
        Some(m) => m,
        None => {
            return None;
        },
    };
    if !totals_fit_check(&sites, &missiles) {
        return None;
    }
    Some(aggregate_with(runs, scope_run_count, sites, missiles))
}

/// The aggregate of `runs` from its sites and merged missile rows.
fn aggregate_with(
    runs: &Vec<(String, EnrichmentSnapshot)>,
    scope_run_count: usize,
    sites: Vec<EnrichmentSite>,
    missiles: Vec<MissileStat>,
) -> (r: EnrichmentSnapshot)
    requires
        sites_view(sites@) == all_sites(snapshots_of(runs@)),
        missiles_view(missiles@) == merged_rows(all_rows(snapshots_of(runs@))),
        totals_fit(sites_view(sites@), missiles_view(missiles@)),
    ensures
        aggregate_of(r, runs@, scope_run_count),
{
    let ghost snaps = snapshots_of(runs@);
    let listeners = union_listeners(runs);
    let mut diagnostics = union_diagnostics(runs);
    let ghost deduped = diagnostics_view(diagnostics@);
    if runs.len() < scope_run_count {
        let missing = scope_run_count - runs.len();
        let mut message = decimal_string(missing as u64);
        message.append(" of ");
        let total = decimal_string(scope_run_count as u64);
        message.append(total.as_str());
        message.append(" runs lack enrichment");
        diagnostics.push(Diagnostic { level: String::from_str("warn"), message });
        assert(diagnostics_view(diagnostics@) =~= deduped + seq![
            lack_warning(missing as nat, scope_run_count as nat),
        ]);
    } else {
        assert(deduped + Seq::<DiagnosticView>::empty() =~= deduped);
    }
    let resolved_fc: Option<String> = if runs.len() == 0 {
        None
    } else {
        assert(snaps.last() == runs@[runs@.len() - 1].1);
        match &runs[runs.len() - 1].1.resolved_fc {
            Some(name) => Some(name.clone()),
            None => None,
        }
    };
    let totals = enrichment_totals(&sites, &missiles);
    EnrichmentSnapshot { resolved_fc, listeners, diagnostics, sites, missiles, totals }
}


// ---------------------------------------------------------------- laws

proof fn lemma_dead_sum_update(s: Seq<MissileStatView>, k: int, v: MissileStatView)
    requires
        0 <= k < s.len(),
    ensures
        dead_sum(s.update(k, v)) == dead_sum(s) - s[k].dead + v.dead,
    decreases s.len(),
{
    if k == s.len() - 1 {
        assert(s.update(k, v).drop_last() =~= s.drop_last());
    } else {
        lemma_dead_sum_update(s.drop_last(), k, v);
        assert(s.update(k, v).drop_last() =~= s.drop_last().update(k, v));
    }
}

proof fn lemma_tallies_fit_prefix(m: Seq<MissileStatView>)
    requires
        m.len() > 0,
        tallies_fit(m),
    ensures
        tallies_fit(m.drop_last()),
{
    assert forall|n: Seq<char>| #![trigger tally(m.drop_last(), n)]
        tally(m.drop_last(), n).reload_cycles <= u32::MAX && tally(m.drop_last(), n).hits <= u32::MAX
            && tally(m.drop_last(), n).dead <= u32::MAX by {
        lemma_tally_prefix(m, m.len() - 1, n);
        assert(m.take(m.len() - 1) =~= m.drop_last());
        assert(tally(m, n).reload_cycles <= u32::MAX);
    }
}

/// Aggregating keeps the fleet's dead missiles: the merged rows (one per
/// listener) hold as many dead missiles as all the runs' rows together.
pub proof fn law_aggregate_keeps_dead_missiles(m: Seq<MissileStatView>)
    requires
        tallies_fit(m),
    ensures
        dead_sum(merged_rows(m)) == dead_sum(m),
    decreases m.len(),
{
    if m.len() == 0 {
        assert(merged_rows(m) =~= Seq::<MissileStatView>::empty());
    } else {
        let p = m.drop_last();
        let x = m.last();
        lemma_tallies_fit_prefix(m);
        law_aggregate_keeps_dead_missiles(p);
        lemma_row_names(p);
        lemma_tally_nonneg(p, x.listener);
        let names = row_names(p);
        let mp = merged_rows(p);
        let mm = merged_rows(m);
        assert(tally(m, x.listener).dead <= u32::MAX);
        if names.contains(x.listener) {
            let k = choose|k: int| 0 <= k < names.len() && names[k] == x.listener;
            assert(row_names(m) == names);
            let t = tally(m, x.listener);
            let v = MissileStatView {
                listener: x.listener,
                reload_cycles: t.reload_cycles as u32,
                hits: t.hits as u32,
                missiles_per_cycle: last_row(m, x.listener).missiles_per_cycle,
                launchers: last_row(m, x.listener).launchers,
                dead: t.dead as u32,
            };
            assert forall|j: int| 0 <= j < names.len() && j != k implies mm[j] == mp[j] by {
                assert(names[j] != names[k]);
            }
            assert(mm =~= mp.update(k, v));
            lemma_dead_sum_update(mp, k, v);
            assert(mp[k].dead == tally(p, x.listener).dead);
        } else {
            assert(row_names(m) == names.push(x.listener));
            assert forall|i: int| 0 <= i < p.len() implies (#[trigger] p[i]).listener != x.listener by {
                if p[i].listener == x.listener {
                    assert(names.contains(x.listener));
                }
            }
            lemma_tally_absent(p, x.listener);
            assert forall|j: int| 0 <= j < names.len() implies mm[j] == mp[j] by {
                assert(names[j] != x.listener);
            }
            assert(mm.drop_last() =~= mp);
        }
    }
}

/// Approach is the residual of the site duration after combat→payout: when
/// it is measured, so is combat, both are non-negative, and they add up to
/// the duration; combat→payout is at least one second and ends at the payout
/// inside the gap.
pub proof fn law_approach_is_residual(logs: Seq<ListenerLogView>, gap_start: i64, payout: i64, duration: i64)
    requires
        valid_ts(gap_start as int),
        valid_ts(payout as int),
    ensures
        ({
            let (approach, combat, source) = align_of(logs, gap_start, payout, duration);
            &&& approach matches Some(a) ==> combat matches Some(c) && a >= 0 && a + c == duration
            &&& combat matches Some(c) ==> 1 <= c < payout - gap_start && source == EnrichmentSource::Fleet
            &&& source == EnrichmentSource::Heuristic ==> approach is None && combat is None
        }),
{
    let ev = all_events(logs);
    lemma_earliest_bounds(ev, GamelogEventKind::FollowingWarp, gap_start + 1, payout as int);
    if let Some(anchor) = earliest(ev, GamelogEventKind::FollowingWarp, gap_start + 1, payout as int) {
        lemma_earliest_bounds(ev, GamelogEventKind::CombatHit, anchor as int, payout - 1);
    }
}


/// The configured FC wins: when its trimmed name is non-empty and is some
/// log's Listener, the resolved FC is that name, whatever the wallet hint.
pub proof fn law_configured_fc_wins(
    logs: Seq<ListenerLogView>,
    fc: Seq<char>,
    hint: Option<Seq<char>>,
    i: int,
)
    requires
        0 <= i < logs.len(),
        trim(fc).len() > 0,
        logs[i].listener == trim(fc),
    ensures
        fc_of(logs, Some(fc), hint) == Some(trim(fc)),
{
    assert(has_listener(logs, trim(fc)));
}

/// The wallet hint comes second: when the configured FC names no log's
/// Listener and the trimmed hint does, the resolved FC is the hint.
pub proof fn law_wallet_hint_when_fc_absent(
    logs: Seq<ListenerLogView>,
    fc: Option<Seq<char>>,
    hint: Seq<char>,
    i: int,
)
    requires
        0 <= i < logs.len(),
        trim(hint).len() > 0,
        logs[i].listener == trim(hint),
        forall|k: int| 0 <= k < logs.len() ==> (fc matches Some(f) ==> (#[trigger] logs[k]).listener != trim(f)),
    ensures
        fc_of(logs, fc, Some(hint)) == Some(trim(hint)),
{
    assert(has_listener(logs, trim(hint)));
}

/// The resolved FC is always the Listener of one of the logs, and there is
/// one exactly when there are logs.
pub proof fn law_resolved_fc_is_a_listener(logs: Seq<ListenerLogView>, fc: Option<Seq<char>>, hint: Option<Seq<char>>)
    ensures
        fc_of(logs, fc, hint) is Some <==> logs.len() > 0,
        fc_of(logs, fc, hint) matches Some(n) ==> exists|k: int| 0 <= k < logs.len() && (#[trigger] logs[k]).listener == n,
{
    lemma_fewest_in_range(logs);
    if logs.len() > 0 {
        let k = fewest_warps(logs);
        assert(logs[k].listener == logs[fewest_warps(logs)].listener);
    }
}

} // verus!
