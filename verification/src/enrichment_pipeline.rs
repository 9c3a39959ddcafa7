//! From a sealed run to its enrichment: which gamelogs directory and window
//! to scan, the ammo fit, the FC hint from the wallet, and the snapshot with
//! the scan's messages. The scan itself and storage are the caller's.

use vstd::prelude::*;
use crate::analytics_types::{diagnostics_view, Diagnostic, DiagnosticView, EnrichmentSnapshot};
use crate::spawn_parse::opt_text;
use crate::text::{chars_of, str_lines, string_of, trim, trim_range};
use crate::timing::{AnalyticsReport, RunSettings};
use crate::types::AppSettings;
use crate::wallet_parse::{extract_wallet_fc_hint, fc_hint, parse_wallet_journal, wallet_scan};

verus! {

/// The production gamelog scanner (the caller's file-system scan).
pub struct FsGamelogScan;

/// What an enrichment of a run scans and computes with.
pub struct EnrichPlan {
    pub site_times: Vec<i64>,
    pub site_durations: Vec<Option<i64>>,
    /// The configured gamelogs directory, trimmed; `None` for the default.
    pub gamelogs_dir: Option<String>,
    /// The wallet window: the run start (or the first payout) to the last
    /// payout, UTC seconds.
    pub wallet_start: i64,
    pub wallet_end: i64,
    pub launchers: u32,
    pub missiles_per_cycle: u32,
}

/// `x.max(0)` read as `u32` (a cast, which keeps the low 32 bits).
pub open spec fn clamp_u32(x: i64) -> u32 {
    (if x < 0 {
        0
    } else {
        x
    }) as u32
}

/// The configured directory when it is not blank after trimming.
pub open spec fn dir_override(d: Option<Seq<char>>) -> Option<Seq<char>> {
    match d {
        Some(s) => if trim(s).len() > 0 {
            Some(trim(s))
        } else {
            None
        },
        None => None,
    }
}

/// The plan for a report with sites; none for an empty report.
pub fn plan_enrichment(settings: &RunSettings, report: &AnalyticsReport, app: &AppSettings) -> (r: Option<EnrichPlan>)
    ensures
        report.sites@.len() == 0 <==> r is None,
        r matches Some(p) ==> {
            let sites = report.sites@;
            &&& p.site_times@.len() == sites.len()
            &&& p.site_durations@.len() == sites.len()
            &&& forall|i: int|
                0 <= i < sites.len() ==> p.site_times@[i] == (#[trigger] sites[i]).occurred_at
                    && p.site_durations@[i] == sites[i].duration_seconds
            &&& opt_text(p.gamelogs_dir) == dir_override(opt_text(app.gamelogs_dir))
            &&& p.wallet_start == match settings.run_start {
                Some(t) => t,
                None => sites[0].occurred_at,
            }
            &&& p.wallet_end == sites.last().occurred_at
            &&& p.launchers == clamp_u32(app.ammo_launchers)
            &&& p.missiles_per_cycle == crate::enrichment::sat_mul(
                clamp_u32(app.ammo_launchers),
                clamp_u32(app.ammo_per_launcher),
            )
        },
{
    let n = report.sites.len();
    if n == 0 {
        return None;
    }
    let mut site_times: Vec<i64> = Vec::new();
    let mut site_durations: Vec<Option<i64>> = Vec::new();
    let mut i: usize = 0;
    while i < n
        invariant
            n == report.sites@.len(),
            0 <= i <= n,
            site_times@.len() == i,
            site_durations@.len() == i,
            forall|k: int|
                0 <= k < i ==> site_times@[k] == (#[trigger] report.sites@[k]).occurred_at
                    && site_durations@[k] == report.sites@[k].duration_seconds,
        decreases n - i,
    {
        site_times.push(report.sites[i].occurred_at);
        site_durations.push(report.sites[i].duration_seconds);
        i = i + 1;
    }
    let gamelogs_dir = match &app.gamelogs_dir {
        Some(d) => {
            let v = chars_of(d.as_str());
            let (a, b) = trim_range(&v, 0, v.len());
            assert(v@.subrange(0, v@.len() as int) =~= d@);
            if a < b {
                Some(string_of(&v, a, b))
            } else {
                None
            }
        },
        None => None,
    };
    let wallet_start = match settings.run_start {
        Some(t) => t,
        None => report.sites[0].occurred_at,
    };
    let wallet_end = report.sites[n - 1].occurred_at;
    let launchers: u32 = (if app.ammo_launchers < 0 {
        0
    } else {
        app.ammo_launchers
    }) as u32;
    let per: u32 = (if app.ammo_per_launcher < 0 {
        0
    } else {
        app.ammo_per_launcher
    }) as u32;
    assert(launchers as int * per as int <= 0xffff_ffff * 0xffff_ffff) by (nonlinear_arith)
        requires
            launchers <= 0xffff_ffff,
            per <= 0xffff_ffff,
    ;
    let product: u64 = launchers as u64 * per as u64;
    let missiles_per_cycle: u32 = if product > 0xffff_ffff {
        u32::MAX
    } else {
        product as u32
    };
    Some(EnrichPlan {
        site_times,
        site_durations,
        gamelogs_dir,
        wallet_start,
        wallet_end,
        launchers,
        missiles_per_cycle,
    })
}

/// The message for a gamelogs directory that does not exist.
pub fn missing_dir_message(dir: &str) -> (r: String)
    ensures
        r@ == "Gamelogs directory not found: "@ + dir@ + " — enrichment unavailable"@,
{
    let mut m = String::from_str("Gamelogs directory not found: ");
    m.append(dir);
    m.append(" — enrichment unavailable");
    m
}

/// The FC hint of a sealed run: from the description of its earliest
/// qualifying wallet payout.
pub fn wallet_fc_hint(wallet_text: &str, expected_isk: i64) -> (r: Option<String>)
    requires
        wallet_text@.len() < u32::MAX,
    ensures
        ({
            let es = wallet_scan(str_lines(wallet_text@), expected_isk).events;
            &&& es.len() == 0 ==> r is None
            &&& es.len() > 0 ==> exists|k: int|
                0 <= k < es.len() && (forall|j: int| 0 <= j < es.len() ==> es[k].occurred_at <= (
                #[trigger] es[j]).occurred_at) && opt_text(r) == fc_hint(es[k].description)
        }),
{
    let parsed = parse_wallet_journal(wallet_text, expected_isk);
    let ghost es = wallet_scan(str_lines(wallet_text@), expected_isk).events;
    let ghost pv = crate::wallet_parse::payouts_view(parsed.events@);
    proof {
        pv.to_multiset_ensures();
        es.to_multiset_ensures();
    }
    if parsed.events.len() == 0 {
        assert(pv.len() == 0);
        assert(es.to_multiset().len() == 0);
        return None;
    }
    let hint = extract_wallet_fc_hint(parsed.events[0].description.as_str());
    proof {
        let first = pv[0];
        assert(pv.contains(first)) by {
            assert(pv[0] == first);
        }
        assert(pv.to_multiset().count(first) > 0);
        assert(es.to_multiset().count(first) > 0);
        assert(es.contains(first));
        let k = choose|k: int| 0 <= k < es.len() && es[k] == first;
        assert forall|j: int| 0 <= j < es.len() implies es[k].occurred_at <= (#[trigger] es[j]).occurred_at by {
            let x = es[j];
            assert(es.contains(x)) by {
                assert(es[j] == x);
            }
            assert(es.to_multiset().count(x) > 0);
            assert(pv.to_multiset().count(x) > 0);
            assert(pv.contains(x));
            let m = choose|m: int| 0 <= m < pv.len() && pv[m] == x;
            if m > 0 {
                assert(pv[0].occurred_at < pv[m].occurred_at);
            }
        }
    }
    hint
}

/// Adds the scan's messages to a snapshot, as warnings.
pub fn add_scan_diagnostics(snapshot: &mut EnrichmentSnapshot, messages: &Vec<String>)
    ensures
        diagnostics_view(final(snapshot).diagnostics@) == diagnostics_view(old(snapshot).diagnostics@)
            + messages@.map_values(|m: String| DiagnosticView { level: "warn"@, message: m@ }),
        final(snapshot).sites@ == old(snapshot).sites@,
        final(snapshot).missiles@ == old(snapshot).missiles@,
        final(snapshot).totals == old(snapshot).totals,
        final(snapshot).listeners@ == old(snapshot).listeners@,
        final(snapshot).resolved_fc == old(snapshot).resolved_fc,
{
    let ghost d0 = diagnostics_view(snapshot.diagnostics@);
    let ghost mv = messages@.map_values(|m: String| DiagnosticView { level: "warn"@, message: m@ });
    let mut i: usize = 0;
    while i < messages.len()
        invariant
            0 <= i <= messages@.len(),
            mv == messages@.map_values(|m: String| DiagnosticView { level: "warn"@, message: m@ }),
            diagnostics_view(snapshot.diagnostics@) == d0 + mv.take(i as int),
            snapshot.sites == old(snapshot).sites,
            snapshot.missiles == old(snapshot).missiles,
            snapshot.totals == old(snapshot).totals,
            snapshot.listeners == old(snapshot).listeners,
            snapshot.resolved_fc == old(snapshot).resolved_fc,
        decreases messages@.len() - i,
    {
        let ghost before = diagnostics_view(snapshot.diagnostics@);
        snapshot.diagnostics.push(Diagnostic { level: String::from_str("warn"), message: messages[i].clone() });
        assert(diagnostics_view(snapshot.diagnostics@) =~= before.push(mv[i as int]));
        assert(d0 + mv.take(i + 1) =~= (d0 + mv.take(i as int)).push(mv[i as int]));
        i = i + 1;
    }
    assert(mv.take(messages@.len() as int) =~= mv);
}

} // verus!
