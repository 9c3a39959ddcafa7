//! Analytics values handed to the Tools window: trays, scopes, catalog rows
//! and gamelog enrichment snapshots.

use vstd::prelude::*;
use crate::spawn_parse::SpawnDraft;
use crate::timing::{AnalyticsReport, RunSettings};

verus! {

#[derive(Debug, Clone, Copy, PartialEq, Eq, Structural)]
pub enum Tray {
    Manifest,
    Wallet,
}

/// What a report covers.
#[derive(Debug, Clone, PartialEq, Eq)]
pub enum ReportScope {
    Overall,
    Spawn { constellation: String },
    Run { run_id: String },
}

/// An edit of the desk state requested by the Tools window.
#[derive(Debug, Clone)]
pub enum AmendOp {
    ClearWalletTray,
    SetSessionSettings { settings: RunSettings },
    ReopenTrays,
    OpenRun { run_id: String },
    SetConstellation { constellation: String },
    /// Recompute gamelog enrichment: `Some(run_id)` for that run, `None` for
    /// every run in the current report scope.
    ReenrichRun { run_id: Option<String> },
}

#[derive(Debug, Clone, PartialEq, Eq)]
pub struct Diagnostic {
    pub level: String,
    pub message: String,
}

pub ghost struct DiagnosticView {
    pub level: Seq<char>,
    pub message: Seq<char>,
}

impl View for Diagnostic {
    type V = DiagnosticView;

    open spec fn view(&self) -> DiagnosticView {
        DiagnosticView { level: self.level@, message: self.message@ }
    }
}

pub open spec fn diagnostics_view(s: Seq<Diagnostic>) -> Seq<DiagnosticView> {
    s.map_values(|d: Diagnostic| d@)
}

impl Diagnostic {
    /// A diagnostic with the same level and message.
    pub fn copied(&self) -> (r: Diagnostic)
        ensures
            r@ == self@,
    {
        Diagnostic { level: self.level.clone(), message: self.message.clone() }
    }
}

#[derive(Debug, Clone, PartialEq, Eq)]
pub struct SpawnSummary {
    pub constellation: String,
    pub region: Option<String>,
    pub staging_system: Option<String>,
    pub hq_system: Option<String>,
    pub run_count: u32,
}

/// One saved run in the catalog; `saved_at` is UTC seconds.
#[derive(Debug, Clone, PartialEq, Eq)]
pub struct RunSummary {
    pub run_id: String,
    pub constellation: String,
    pub saved_at: i64,
    pub site_count: u32,
    pub liquid_isk: i64,
}

#[derive(Debug, Clone, PartialEq, Eq)]
pub struct TrayState {
    pub manifest: String,
    pub wallet_batches: u32,
    pub pending_sites: u32,
}

#[derive(Debug, Clone)]
pub struct Catalog {
    pub spawns: Vec<SpawnSummary>,
    pub runs: Vec<RunSummary>,
}

impl Default for Catalog {
    fn default() -> (r: Self)
        ensures
            r.spawns@.len() == 0,
            r.runs@.len() == 0,
    {
        Catalog { spawns: Vec::new(), runs: Vec::new() }
    }
}

/// Where a site row's approach / combat→payout split came from. New
/// snapshots hold `Fleet` or `Heuristic`; `Fc` and `Borrowed` are read from
/// older snapshots.
#[derive(Debug, Clone, Copy, PartialEq, Eq, Structural)]
pub enum EnrichmentSource {
    Fc,
    Borrowed,
    Heuristic,
    Fleet,
}

/// Dead-missile count for one character, over a run or one site gap.
#[derive(Debug, Clone, PartialEq, Eq)]
pub struct MissileStat {
    pub listener: String,
    pub reload_cycles: u32,
    pub hits: u32,
    pub missiles_per_cycle: u32,
    pub launchers: u32,
    pub dead: u32,
}

pub ghost struct MissileStatView {
    pub listener: Seq<char>,
    pub reload_cycles: u32,
    pub hits: u32,
    pub missiles_per_cycle: u32,
    pub launchers: u32,
    pub dead: u32,
}

impl View for MissileStat {
    type V = MissileStatView;

    open spec fn view(&self) -> MissileStatView {
        MissileStatView {
            listener: self.listener@,
            reload_cycles: self.reload_cycles,
            hits: self.hits,
            missiles_per_cycle: self.missiles_per_cycle,
            launchers: self.launchers,
            dead: self.dead,
        }
    }
}

pub open spec fn missiles_view(s: Seq<MissileStat>) -> Seq<MissileStatView> {
    s.map_values(|m: MissileStat| m@)
}

impl MissileStat {
    /// A stat with the same fields.
    pub fn copied(&self) -> (r: MissileStat)
        ensures
            r@ == self@,
    {
        MissileStat {
            listener: self.listener.clone(),
            reload_cycles: self.reload_cycles,
            hits: self.hits,
            missiles_per_cycle: self.missiles_per_cycle,
            launchers: self.launchers,
            dead: self.dead,
        }
    }
}

/// Copies of `v`'s stats.
pub fn copy_missiles(v: &Vec<MissileStat>) -> (r: Vec<MissileStat>)
    ensures
        missiles_view(r@) == missiles_view(v@),
{
    let mut r: Vec<MissileStat> = Vec::new();
    let mut i: usize = 0;
    while i < v.len()
        invariant
            0 <= i <= v@.len(),
            r@.len() == i,
            forall|k: int| 0 <= k < i ==> (#[trigger] r@[k])@ == v@[k]@,
        decreases v@.len() - i,
    {
        r.push(v[i].copied());
        i = i + 1;
    }
    assert(missiles_view(r@) =~= missiles_view(v@));
    r
}

/// One payout site's gamelog enrichment; `occurred_at` is UTC seconds.
#[derive(Debug, Clone, PartialEq, Eq)]
pub struct EnrichmentSite {
    pub occurred_at: i64,
    pub approach_seconds: Option<i64>,
    pub combat_to_payout_seconds: Option<i64>,
    pub is_break: bool,
    pub source: EnrichmentSource,
    /// Per-character missiles over this site's gap (empty for a break or an
    /// unalignable site).
    pub missiles: Vec<MissileStat>,
}

pub ghost struct EnrichmentSiteView {
    pub occurred_at: i64,
    pub approach_seconds: Option<i64>,
    pub combat_to_payout_seconds: Option<i64>,
    pub is_break: bool,
    pub source: EnrichmentSource,
    pub missiles: Seq<MissileStatView>,
}

impl View for EnrichmentSite {
    type V = EnrichmentSiteView;

    open spec fn view(&self) -> EnrichmentSiteView {
        EnrichmentSiteView {
            occurred_at: self.occurred_at,
            approach_seconds: self.approach_seconds,
            combat_to_payout_seconds: self.combat_to_payout_seconds,
            is_break: self.is_break,
            source: self.source,
            missiles: missiles_view(self.missiles@),
        }
    }
}

pub open spec fn sites_view(s: Seq<EnrichmentSite>) -> Seq<EnrichmentSiteView> {
    s.map_values(|x: EnrichmentSite| x@)
}

impl EnrichmentSite {
    /// A site with the same fields.
    pub fn copied(&self) -> (r: EnrichmentSite)
        ensures
            r@ == self@,
    {
        EnrichmentSite {
            occurred_at: self.occurred_at,
            approach_seconds: self.approach_seconds,
            combat_to_payout_seconds: self.combat_to_payout_seconds,
            is_break: self.is_break,
            source: self.source,
            missiles: copy_missiles(&self.missiles),
        }
    }
}

/// Run or scope totals. The average combat→payout time is
/// `combat_to_payout_seconds / combat_sites` (the caller divides).
#[derive(Debug, Clone, Copy, PartialEq, Eq, Structural)]
pub struct EnrichmentTotals {
    pub approach_seconds: Option<i64>,
    pub combat_to_payout_seconds: Option<i64>,
    pub combat_sites: u64,
    pub fleet_dead: u32,
}

#[derive(Debug, Clone)]
pub struct EnrichmentSnapshot {
    pub resolved_fc: Option<String>,
    /// Listener headers used (all listeners with logs in range).
    pub listeners: Vec<String>,
    pub diagnostics: Vec<Diagnostic>,
    pub sites: Vec<EnrichmentSite>,
    pub missiles: Vec<MissileStat>,
    pub totals: EnrichmentTotals,
}


/// Everything the Tools window shows after an operation.
#[derive(Debug, Clone)]
pub struct EditionFocus {
    pub trays: TrayState,
    pub spawn: Option<SpawnSummary>,
    pub catalog: Catalog,
    pub scope: ReportScope,
    pub report: Option<AnalyticsReport>,
    pub diagnostics: Vec<Diagnostic>,
    pub session_settings: RunSettings,
    pub staging_spawn: Option<SpawnDraft>,
    /// The most recently sealed run of this session.
    pub sealed_run_id: Option<String>,
    pub enrichment: Option<EnrichmentSnapshot>,
}
} // verus!
