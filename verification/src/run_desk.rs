//! The run desk's session state and its decisions: trays → analyze → focus.
//!
//! Storage and gamelog scans are the caller's: each operation here takes
//! what they returned and says what to show or to do next.

use vstd::prelude::*;
use crate::analytics_types::{
    diagnostics_view, Catalog, Diagnostic, DiagnosticView, EnrichmentSnapshot, ReportScope,
    SpawnSummary, Tray, TrayState, AmendOp,
};
use crate::site_id::{decimal, decimal_string};
use crate::spawn_parse::{manifest_of, opt_text, parse_manifest, SpawnDraft};
use crate::text::{chars_of, str_lines, string_of, trim, trim_range};
use crate::timing::RunSettings;
use crate::wallet_parse::{parse_wallet_journal, payouts_view, wallet_scan, WalletPayout};

verus! {

/// What the last delete of a run removed.
#[derive(Debug, Clone, PartialEq, Eq)]
pub struct DeleteRunOutcome {
    pub constellation: String,
    pub spawn_removed: bool,
}

/// A run's stored enrichment: none, unreadable under the current shape, or
/// a snapshot.
#[derive(Debug, Clone)]
pub enum EnrichmentLoad {
    Missing,
    Stale,
    Loaded(EnrichmentSnapshot),
}

/// Which runs a re-enrich covers.
#[derive(Debug, Clone, PartialEq, Eq)]
pub enum ReenrichTarget {
    One(String),
    Spawn(String),
    All,
}

/// The desk: session settings, the two trays, messages, scope, sealed run.
pub struct DeskState {
    pub settings: RunSettings,
    pub manifest_text: String,
    pub staging_spawn: Option<SpawnDraft>,
    pub wallet_text: String,
    pub wallet_batches: u32,
    pub pending: Vec<WalletPayout>,
    pub diagnostics: Vec<Diagnostic>,
    pub scope: ReportScope,
    pub sealed_run_id: Option<String>,
}

pub open spec fn diag(level: Seq<char>, message: Seq<char>) -> DiagnosticView {
    DiagnosticView { level, message }
}

fn make_diag(level: &str, message: String) -> (r: Diagnostic)
    ensures
        r@ == diag(level@, message@),
{
    Diagnostic { level: String::from_str(level), message }
}

/// `to_string` of a signed integer.
pub open spec fn signed_decimal(n: int) -> Seq<char> {
    if n < 0 {
        "-"@ + decimal((-n) as nat)
    } else {
        decimal(n as nat)
    }
}

fn signed_decimal_string(n: i64) -> (r: String)
    ensures
        r@ == signed_decimal(n as int),
{
    if n < 0 {
        let m: u64 = ((-(n + 1)) as u64) + 1;
        let mut s = String::from_str("-");
        let d = decimal_string(m);
        s.append(d.as_str());
        s
    } else {
        decimal_string(n as u64)
    }
}

/// Id of a run saved at `millis` (Unix milliseconds): `constellation-millis`.
pub fn run_id_of(constellation: &str, millis: i64) -> (r: String)
    ensures
        r@ == constellation@ + "-"@ + signed_decimal(millis as int),
{
    let mut s = String::from_str(constellation);
    s.append("-");
    let d = signed_decimal_string(millis);
    s.append(d.as_str());
    s
}

/// The wallet text after a paste: the paste itself for the first batch,
/// else appended on a new line.
pub open spec fn wallet_after_paste(old_text: Seq<char>, batches: u32, text: Seq<char>) -> Seq<char> {
    if batches == 0 {
        text
    } else {
        old_text + "\n"@ + text
    }
}

pub open spec fn manifest_warning() -> DiagnosticView {
    diag("warn"@, "Manifest paste missing constellation"@)
}

/// Messages about what a wallet parse left out.
pub open spec fn wallet_notes(ignored: nat, duplicates: nat) -> Seq<DiagnosticView> {
    (if ignored > 0 {
        seq![diag("info"@, decimal(ignored) + " wallet lines ignored (type/amount/parse)"@)]
    } else {
        Seq::<DiagnosticView>::empty()
    }) + (if duplicates > 0 {
        seq![diag("info"@, decimal(duplicates) + " duplicate payouts dropped"@)]
    } else {
        Seq::<DiagnosticView>::empty()
    })
}

pub open spec fn draft_opt(o: Option<SpawnDraft>) -> Option<crate::spawn_parse::DraftView> {
    match o {
        Some(d) => Some(d@),
        None => None,
    }
}

impl DeskState {
    pub fn new() -> (r: Self)
        ensures
            r.settings == crate::timing::default_run_settings(),
            r.manifest_text@.len() == 0,
            r.staging_spawn is None,
            r.wallet_text@.len() == 0,
            r.wallet_batches == 0,
            r.pending@.len() == 0,
            r.diagnostics@.len() == 0,
            r.scope == ReportScope::Overall,
            r.sealed_run_id is None,
    {
        DeskState {
            settings: RunSettings::default(),
            manifest_text: String::new(),
            staging_spawn: None,
            wallet_text: String::new(),
            wallet_batches: 0,
            pending: Vec::new(),
            diagnostics: Vec::new(),
            scope: ReportScope::Overall,
            sealed_run_id: None,
        }
    }

    /// A paste into a tray. The messages start over. A Manifest is parsed
    /// and staged (with a warning when it names no constellation); a wallet
    /// batch is added to the wallet text, which is parsed again for the
    /// pending payouts.
    pub fn paste(&mut self, tray: Tray, text: &str)
        requires
            tray == Tray::Wallet ==> old(self).wallet_batches < u32::MAX && old(self).wallet_text@.len()
                + text@.len() + 1 < u32::MAX,
        ensures
            final(self).settings == old(self).settings,
            final(self).scope == old(self).scope,
            final(self).sealed_run_id == old(self).sealed_run_id,
            tray == Tray::Manifest ==> {
                &&& final(self).manifest_text@ == text@
                &&& draft_opt(final(self).staging_spawn) == Some(manifest_of(text@))
                &&& diagnostics_view(final(self).diagnostics@) == if manifest_of(
                    text@,
                ).constellation is None {
                    seq![manifest_warning()]
                } else {
                    Seq::<DiagnosticView>::empty()
                }
                &&& final(self).wallet_text == old(self).wallet_text
                &&& final(self).wallet_batches == old(self).wallet_batches
                &&& final(self).pending@ == old(self).pending@
            },
            tray == Tray::Wallet ==> {
                let w = wallet_after_paste(old(self).wallet_text@, old(self).wallet_batches, text@);
                let scan = wallet_scan(str_lines(w), old(self).settings.expected_isk);
                &&& final(self).wallet_text@ == w
                &&& final(self).wallet_batches == old(self).wallet_batches + 1
                &&& payouts_view(final(self).pending@).to_multiset() == scan.events.to_multiset()
                &&& crate::wallet_parse::strictly_timed(payouts_view(final(self).pending@))
                &&& diagnostics_view(final(self).diagnostics@) == wallet_notes(scan.ignored, scan.duplicates)
                &&& final(self).manifest_text == old(self).manifest_text
                &&& draft_opt(final(self).staging_spawn) == draft_opt(old(self).staging_spawn)
            },
    {
        self.diagnostics = Vec::new();
        match tray {
            Tray::Manifest => {
                self.manifest_text = String::from_str(text);
                let draft = parse_manifest(text);
                if draft.constellation.is_none() {
                    self.diagnostics.push(
                        make_diag("warn", String::from_str("Manifest paste missing constellation")),
                    );
                }
                self.staging_spawn = Some(draft);
                assert(diagnostics_view(self.diagnostics@) =~= if manifest_of(text@).constellation is None {
                    seq![manifest_warning()]
                } else {
                    Seq::<DiagnosticView>::empty()
                });
            },
            Tray::Wallet => {
                if self.wallet_batches == 0 {
                    self.wallet_text = String::from_str(text);
                } else {
                    self.wallet_text.append("\n");
                    self.wallet_text.append(text);
                }
                self.wallet_batches = self.wallet_batches + 1;
                proof {
                    reveal_strlit("\n");
                }
                let parsed = parse_wallet_journal(self.wallet_text.as_str(), self.settings.expected_isk);
                self.pending = parsed.events;
                if parsed.ignored_lines > 0 {
                    let mut m = decimal_string(parsed.ignored_lines as u64);
                    m.append(" wallet lines ignored (type/amount/parse)");
                    self.diagnostics.push(make_diag("info", m));
                }
                if parsed.duplicates_dropped > 0 {
                    let mut m = decimal_string(parsed.duplicates_dropped as u64);
                    m.append(" duplicate payouts dropped");
                    self.diagnostics.push(make_diag("info", m));
                }
                assert(diagnostics_view(self.diagnostics@) =~= wallet_notes(
                    parsed.ignored_lines as nat,
                    parsed.duplicates_dropped as nat,
                ));
            },
        }
    }
}


/// Messages after re-enriching runs: one warning per failure, then (when
/// there were runs) how many of them succeeded, as info when all did.
pub open spec fn reenrich_notes(results: Seq<(Seq<char>, Option<Seq<char>>)>) -> Seq<DiagnosticView> {
    failure_notes(results) + if results.len() > 0 {
        let ok = successes(results);
        seq![
            diag(
                if ok == results.len() {
                    "info"@
                } else {
                    "warn"@
                },
                decimal(ok) + " of "@ + decimal(results.len()) + " re-enriched"@,
            ),
        ]
    } else {
        Seq::<DiagnosticView>::empty()
    }
}

pub open spec fn failure_notes(results: Seq<(Seq<char>, Option<Seq<char>>)>) -> Seq<DiagnosticView>
    decreases results.len(),
{
    if results.len() == 0 {
        seq![]
    } else {
        let (id, err) = results.last();
        failure_notes(results.drop_last()) + match err {
            Some(e) => seq![diag("warn"@, "Failed re-enrich "@ + id + ": "@ + e)],
            None => Seq::<DiagnosticView>::empty(),
        }
    }
}

pub open spec fn successes(results: Seq<(Seq<char>, Option<Seq<char>>)>) -> nat
    decreases results.len(),
{
    if results.len() == 0 {
        0
    } else {
        successes(results.drop_last()) + if results.last().1 is None {
            1nat
        } else {
            0nat
        }
    }
}

pub open spec fn results_view(r: Seq<(String, Option<String>)>) -> Seq<(Seq<char>, Option<Seq<char>>)> {
    r.map_values(|x: (String, Option<String>)| (x.0@, opt_text(x.1)))
}

pub open spec fn scope_of(s: ReportScope) -> ReportScopeView {
    match s {
        ReportScope::Overall => ReportScopeView::Overall,
        ReportScope::Spawn { constellation } => ReportScopeView::Spawn(constellation@),
        ReportScope::Run { run_id } => ReportScopeView::Run(run_id@),
    }
}

pub ghost enum ReportScopeView {
    Overall,
    Spawn(Seq<char>),
    Run(Seq<char>),
}

pub open spec fn target_view(t: ReenrichTarget) -> ReportScopeView {
    match t {
        ReenrichTarget::One(id) => ReportScopeView::Run(id@),
        ReenrichTarget::Spawn(c) => ReportScopeView::Spawn(c@),
        ReenrichTarget::All => ReportScopeView::Overall,
    }
}

impl DeskState {
    /// An edit that needs no storage. A re-enrich is not done here: the
    /// runs it covers come back (the given run, else the focused scope's).
    pub fn amend(&mut self, op: AmendOp) -> (r: Option<ReenrichTarget>)
        requires
            op matches AmendOp::SetSessionSettings { settings } ==> old(self).wallet_text@.len() < u32::MAX,
        ensures
            match op {
                AmendOp::ClearWalletTray => {
                    &&& r is None
                    &&& final(self).wallet_text@.len() == 0
                    &&& final(self).wallet_batches == 0
                    &&& final(self).pending@.len() == 0
                    &&& final(self).settings == old(self).settings
                    &&& scope_of(final(self).scope) == scope_of(old(self).scope)
                },
                AmendOp::SetSessionSettings { settings } => {
                    &&& r is None
                    &&& final(self).settings == settings
                    &&& final(self).wallet_text == old(self).wallet_text
                    &&& scope_of(final(self).scope) == scope_of(old(self).scope)
                    &&& if old(self).wallet_text@.len() == 0 {
                        final(self).pending@ == old(self).pending@
                    } else {
                        let scan = wallet_scan(str_lines(old(self).wallet_text@), settings.expected_isk);
                        &&& payouts_view(final(self).pending@).to_multiset() == scan.events.to_multiset()
                        &&& crate::wallet_parse::strictly_timed(payouts_view(final(self).pending@))
                    }
                },
                AmendOp::ReopenTrays => {
                    &&& r is None
                    &&& final(self).wallet_text == old(self).wallet_text
                    &&& final(self).pending@ == old(self).pending@
                    &&& scope_of(final(self).scope) == scope_of(old(self).scope)
                },
                AmendOp::OpenRun { run_id } => {
                    &&& r is None
                    &&& scope_of(final(self).scope) == ReportScopeView::Run(run_id@)
                    &&& final(self).pending@ == old(self).pending@
                },
                AmendOp::SetConstellation { constellation } => {
                    &&& r is None
                    &&& draft_opt(final(self).staging_spawn) matches Some(d) && d.constellation == Some(
                        trim(constellation@),
                    ) && d == (crate::spawn_parse::DraftView {
                        constellation: Some(trim(constellation@)),
                        ..match draft_opt(old(self).staging_spawn) {
                            Some(o) => o,
                            None => crate::spawn_parse::empty_draft(),
                        }
                    })
                    &&& scope_of(final(self).scope) == scope_of(old(self).scope)
                },
                AmendOp::ReenrichRun { run_id } => {
                    &&& r matches Some(t) && target_view(t) == match run_id {
                        Some(id) => ReportScopeView::Run(id@),
                        None => scope_of(old(self).scope),
                    }
                    &&& scope_of(final(self).scope) == scope_of(old(self).scope)
                    &&& final(self).pending@ == old(self).pending@
                },
            },
            final(self).sealed_run_id == old(self).sealed_run_id,
            final(self).manifest_text == old(self).manifest_text,
            final(self).diagnostics == old(self).diagnostics,
            !(op is SetConstellation) ==> final(self).staging_spawn == old(self).staging_spawn,
            !(op is ClearWalletTray) ==> final(self).wallet_text == old(self).wallet_text
                && final(self).wallet_batches == old(self).wallet_batches,
            !(op is SetSessionSettings) ==> final(self).settings == old(self).settings,
            !(op is ClearWalletTray || op is SetSessionSettings) ==> final(self).pending == old(self).pending,
            !(op is OpenRun) ==> final(self).scope == old(self).scope,
    {
        match op {
            AmendOp::ClearWalletTray => {
                self.wallet_text = String::new();
                self.wallet_batches = 0;
                self.pending.clear();
                None
            },
            AmendOp::SetSessionSettings { settings } => {
                self.settings = settings;
                if !self.wallet_text.as_str().is_empty() {
                    let parsed = parse_wallet_journal(self.wallet_text.as_str(), self.settings.expected_isk);
                    self.pending = parsed.events;
                }
                None
            },
            AmendOp::ReopenTrays => None,
            AmendOp::OpenRun { run_id } => {
                self.scope = ReportScope::Run { run_id };
                None
            },
            AmendOp::SetConstellation { constellation } => {
                let mut draft = match self.staging_spawn.take() {
                    Some(d) => d,
                    None => SpawnDraft::default(),
                };
                let v = chars_of(constellation.as_str());
                let (a, b) = trim_range(&v, 0, v.len());
                assert(v@.subrange(0, v@.len() as int) =~= constellation@);
                draft.constellation = Some(string_of(&v, a, b));
                self.staging_spawn = Some(draft);
                None
            },
            AmendOp::ReenrichRun { run_id } => {
                match run_id {
                    Some(id) => Some(ReenrichTarget::One(id)),
                    None => match &self.scope {
                        ReportScope::Run { run_id } => Some(ReenrichTarget::One(run_id.clone())),
                        ReportScope::Spawn { constellation } => Some(ReenrichTarget::Spawn(constellation.clone())),
                        ReportScope::Overall => Some(ReenrichTarget::All),
                    },
                }
            },
        }
    }

    /// Adds the messages of a re-enrich: `(run_id, error)` per run.
    pub fn record_reenrich(&mut self, results: &Vec<(String, Option<String>)>)
        ensures
            diagnostics_view(final(self).diagnostics@) == diagnostics_view(old(self).diagnostics@)
                + reenrich_notes(results_view(results@)),
            final(self).pending@ == old(self).pending@,
            scope_of(final(self).scope) == scope_of(old(self).scope),
            final(self).sealed_run_id == old(self).sealed_run_id,
            final(self).wallet_text == old(self).wallet_text,
    {
        let ghost rv = results_view(results@);
        let ghost d0 = diagnostics_view(self.diagnostics@);
        let mut ok: u64 = 0;
        let mut i: usize = 0;
        while i < results.len()
            invariant
                0 <= i <= results@.len(),
                rv == results_view(results@),
                ok == successes(rv.take(i as int)),
                ok <= i,
                diagnostics_view(self.diagnostics@) == d0 + failure_notes(rv.take(i as int)),
                self.pending == old(self).pending,
                self.scope == old(self).scope,
                self.sealed_run_id == old(self).sealed_run_id,
                self.wallet_text == old(self).wallet_text,
            decreases results@.len() - i,
        {
            assert(rv.take(i + 1).drop_last() =~= rv.take(i as int));
            assert(rv.take(i + 1).last() == rv[i as int]);
            let ghost before = diagnostics_view(self.diagnostics@);
            match &results[i].1 {
                Some(e) => {
                    let mut m = String::from_str("Failed re-enrich ");
                    m.append(results[i].0.as_str());
                    m.append(": ");
                    m.append(e.as_str());
                    self.diagnostics.push(make_diag("warn", m));
                    assert(diagnostics_view(self.diagnostics@) =~= before.push(
                        diag("warn"@, "Failed re-enrich "@ + rv[i as int].0 + ": "@ + e@),
                    ));
                },
                None => {
                    ok = ok + 1;
                },
            }
            i = i + 1;
        }
        assert(rv.take(results@.len() as int) =~= rv);
        let total = results.len();
        if total > 0 {
            let mut m = decimal_string(ok);
            m.append(" of ");
            let t = decimal_string(total as u64);
            m.append(t.as_str());
            m.append(" re-enriched");
            let level = if ok == total as u64 {
                "info"
            } else {
                "warn"
            };
            let ghost before = diagnostics_view(self.diagnostics@);
            self.diagnostics.push(make_diag(level, m));
            assert(diagnostics_view(self.diagnostics@) =~= before.push(diag(if ok == total as u64 { "info"@ } else { "warn"@ }, m@)));
            assert(rv.len() == total);
            assert(diagnostics_view(self.diagnostics@) =~= d0 + reenrich_notes(rv));
        } else {
            assert(diagnostics_view(self.diagnostics@) =~= d0 + reenrich_notes(rv));
        }
    }
}

pub open spec fn no_constellation_error() -> Seq<char> {
    "Constellation required — paste a Manifest first"@
}

pub open spec fn no_payouts_error() -> Seq<char> {
    "No qualifying Corporate Reward Payout rows for expected ISK"@
}

/// Messages after a run is saved.
pub open spec fn seal_notes(run_id: Seq<char>, sites: nat, enrich_error: Option<Seq<char>>) -> Seq<DiagnosticView> {
    seq![diag("info"@, "Saved run "@ + run_id + " ("@ + decimal(sites) + " sites)"@)] + match enrich_error {
        Some(e) => seq![diag("warn"@, "Gamelog enrichment skipped: "@ + e)],
        None => Seq::<DiagnosticView>::empty(),
    }
}

pub open spec fn stale_enrichment_note() -> DiagnosticView {
    diag("warn"@, "Enrichment needs Re-enrich (schema outdated)"@)
}

pub open spec fn no_report_note(run_id: Seq<char>) -> DiagnosticView {
    diag("warn"@, "Run "@ + run_id + " has no readable saved report"@)
}

/// `ids` joined with `", "`.
pub open spec fn joined(ids: Seq<Seq<char>>) -> Seq<char>
    decreases ids.len(),
{
    if ids.len() == 0 {
        seq![]
    } else if ids.len() == 1 {
        ids[0]
    } else {
        joined(ids.drop_last()) + ", "@ + ids.last()
    }
}

pub open spec fn unreadable_note(ids: Seq<Seq<char>>) -> DiagnosticView {
    diag("warn"@, decimal(ids.len()) + " saved run(s) skipped — unreadable report: "@ + joined(ids))
}

impl DeskState {
    /// The staged constellation, once there are payouts to save; else why
    /// not.
    pub fn analyze_check(&self) -> (r: Result<String, String>)
        ensures
            match r {
                Ok(c) => draft_opt(self.staging_spawn) matches Some(d) && d.constellation == Some(c@)
                    && self.pending@.len() > 0,
                Err(e) => {
                    ||| (draft_opt(self.staging_spawn) matches Some(d) && d.constellation is Some) == false
                        && e@ == no_constellation_error()
                    ||| (draft_opt(self.staging_spawn) matches Some(d) && d.constellation is Some)
                        && self.pending@.len() == 0 && e@ == no_payouts_error()
                },
            },
    {
        let constellation = match &self.staging_spawn {
            Some(d) => match &d.constellation {
                Some(c) => c.clone(),
                None => return Err(String::from_str("Constellation required — paste a Manifest first")),
            },
            None => return Err(String::from_str("Constellation required — paste a Manifest first")),
        };
        if self.pending.len() == 0 {
            return Err(String::from_str("No qualifying Corporate Reward Payout rows for expected ISK"));
        }
        Ok(constellation)
    }

    /// After a run is saved: it is the sealed run, the constellation is in
    /// focus, the wallet tray is emptied (no second save of the same
    /// paste), and the messages say so.
    pub fn seal(&mut self, run_id: String, constellation: String, sites_ran: u32, enrich_error: Option<String>)
        ensures
            opt_text(final(self).sealed_run_id) == Some(run_id@),
            scope_of(final(self).scope) == ReportScopeView::Spawn(constellation@),
            final(self).wallet_text@.len() == 0,
            final(self).wallet_batches == 0,
            final(self).pending@.len() == 0,
            diagnostics_view(final(self).diagnostics@) == diagnostics_view(old(self).diagnostics@)
                + seal_notes(run_id@, sites_ran as nat, opt_text(enrich_error)),
            final(self).settings == old(self).settings,
    {
        let ghost d0 = diagnostics_view(self.diagnostics@);
        let mut m = String::from_str("Saved run ");
        m.append(run_id.as_str());
        m.append(" (");
        let n = decimal_string(sites_ran as u64);
        m.append(n.as_str());
        m.append(" sites)");
        self.sealed_run_id = Some(run_id);
        self.scope = ReportScope::Spawn { constellation };
        self.wallet_text = String::new();
        self.wallet_batches = 0;
        self.pending.clear();
        self.diagnostics.push(make_diag("info", m));
        let ghost d1 = diagnostics_view(self.diagnostics@);
        match enrich_error {
            Some(e) => {
                let mut w = String::from_str("Gamelog enrichment skipped: ");
                w.append(e.as_str());
                self.diagnostics.push(make_diag("warn", w));
                assert(diagnostics_view(self.diagnostics@) =~= d1.push(diag("warn"@, w@)));
            },
            None => {},
        }
        assert(diagnostics_view(self.diagnostics@) =~= d0 + seal_notes(
            run_id@,
            sites_ran as nat,
            opt_text(enrich_error),
        ));
    }

    /// After a run is deleted: it is no longer the sealed run, and the focus
    /// goes to its spawn, or to everything when the spawn went with it.
    pub fn after_delete_run(&mut self, run_id: &str, outcome: DeleteRunOutcome)
        ensures
            opt_text(final(self).sealed_run_id) == if opt_text(old(self).sealed_run_id) == Some(run_id@) {
                None
            } else {
                opt_text(old(self).sealed_run_id)
            },
            scope_of(final(self).scope) == if outcome.spawn_removed {
                ReportScopeView::Overall
            } else {
                ReportScopeView::Spawn(outcome.constellation@)
            },
            final(self).pending@ == old(self).pending@,
    {
        let key = String::from_str(run_id);
        let clear = match &self.sealed_run_id {
            Some(id) => *id == key,
            None => false,
        };
        if clear {
            self.sealed_run_id = None;
        }
        self.scope = if outcome.spawn_removed {
            ReportScope::Overall
        } else {
            ReportScope::Spawn { constellation: outcome.constellation }
        };
    }

    /// After a spawn is deleted: the focus is everything, and the sealed run
    /// is forgotten when it belonged to that spawn.
    pub fn after_delete_spawn(&mut self, sealed_in_spawn: bool)
        ensures
            opt_text(final(self).sealed_run_id) == if sealed_in_spawn {
                None
            } else {
                opt_text(old(self).sealed_run_id)
            },
            scope_of(final(self).scope) == ReportScopeView::Overall,
            final(self).pending@ == old(self).pending@,
    {
        if sealed_in_spawn {
            self.sealed_run_id = None;
        }
        self.scope = ReportScope::Overall;
    }

    /// After all analytics are cleared: no sealed run, focus on everything.
    pub fn after_clear_all(&mut self)
        ensures
            final(self).sealed_run_id is None,
            scope_of(final(self).scope) == ReportScopeView::Overall,
            final(self).pending@ == old(self).pending@,
            final(self).wallet_text == old(self).wallet_text,
    {
        self.sealed_run_id = None;
        self.scope = ReportScope::Overall;
    }

    /// Whether the sealed run is one of `constellation`'s runs in the catalog.
    pub fn sealed_in_spawn(&self, catalog: &Catalog, constellation: &str) -> (r: bool)
        ensures
            r == (opt_text(self.sealed_run_id) matches Some(id) && exists|i: int|
                0 <= i < catalog.runs@.len() && (#[trigger] catalog.runs@[i]).run_id@ == id
                    && catalog.runs@[i].constellation@ == constellation@),
    {
        let id = match &self.sealed_run_id {
            Some(id) => id,
            None => return false,
        };
        let key = String::from_str(constellation);
        let mut i: usize = 0;
        while i < catalog.runs.len()
            invariant
                0 <= i <= catalog.runs@.len(),
                key@ == constellation@,
                opt_text(self.sealed_run_id) == Some(id@),
                forall|j: int|
                    0 <= j < i ==> !((#[trigger] catalog.runs@[j]).run_id@ == id@
                        && catalog.runs@[j].constellation@ == constellation@),
            decreases catalog.runs@.len() - i,
        {
            let r = &catalog.runs[i];
            if r.run_id == *id && r.constellation == key {
                return true;
            }
            i = i + 1;
        }
        false
    }

    /// The tray line: whether a Manifest with a constellation is staged,
    /// how many wallet batches, how many pending payouts.
    pub fn trays(&self) -> (r: TrayState)
        requires
            self.pending@.len() <= u32::MAX,
        ensures
            r.manifest@ == if draft_opt(self.staging_spawn) matches Some(d) && d.constellation is Some {
                "staged"@
            } else {
                "empty"@
            },
            r.wallet_batches == self.wallet_batches,
            r.pending_sites == self.pending@.len(),
    {
        let staged = match &self.staging_spawn {
            Some(d) => d.constellation.is_some(),
            None => false,
        };
        TrayState {
            manifest: if staged {
                String::from_str("staged")
            } else {
                String::from_str("empty")
            },
            wallet_batches: self.wallet_batches,
            pending_sites: self.pending.len() as u32,
        }
    }

    /// The staged spawn, with its run count from the catalog (0 when it has
    /// no saved runs).
    pub fn spawn_summary(&self, catalog: &Catalog) -> (r: Option<SpawnSummary>)
        ensures
            match draft_opt(self.staging_spawn) {
                Some(d) => match d.constellation {
                    Some(c) => r matches Some(s) && s.constellation@ == c && opt_text(s.region) == d.region
                        && opt_text(s.staging_system) == d.staging_system && opt_text(s.hq_system)
                        == d.hq_system && s.run_count == catalog_runs(catalog.spawns@, c),
                    None => r is None,
                },
                None => r is None,
            },
    {
        let d = match &self.staging_spawn {
            Some(d) => d,
            None => return None,
        };
        let c = match &d.constellation {
            Some(c) => c,
            None => return None,
        };
        let run_count = catalog_run_count(&catalog.spawns, c);
        Some(SpawnSummary {
            constellation: c.clone(),
            region: d.region.clone(),
            staging_system: d.staging_system.clone(),
            hq_system: d.hq_system.clone(),
            run_count,
        })
    }
}

fn catalog_run_count(spawns: &Vec<SpawnSummary>, c: &String) -> (r: u32)
    ensures
        r == catalog_runs(spawns@, c@),
{
    let mut i: usize = 0;
    assert(spawns@.skip(0) =~= spawns@);
    while i < spawns.len() && !(spawns[i].constellation == *c)
        invariant
            0 <= i <= spawns@.len(),
            catalog_runs(spawns@, c@) == catalog_runs(spawns@.skip(i as int), c@),
        decreases spawns@.len() - i,
    {
        assert(spawns@.skip(i as int).drop_first() =~= spawns@.skip(i + 1));
        assert(spawns@.skip(i as int)[0] == spawns@[i as int]);
        i = i + 1;
    }
    if i < spawns.len() {
        assert(spawns@.skip(i as int)[0] == spawns@[i as int]);
        spawns[i].run_count
    } else {
        0
    }
}

/// The run count of the first catalog spawn named `c`, or 0.
pub open spec fn catalog_runs(spawns: Seq<SpawnSummary>, c: Seq<char>) -> u32
    decreases spawns.len(),
{
    if spawns.len() == 0 {
        0
    } else if spawns[0].constellation@ == c {
        spawns[0].run_count
    } else {
        catalog_runs(spawns.drop_first(), c)
    }
}

/// A run's enrichment for display: a snapshot, or a warning when it needs
/// a re-enrich, or nothing.
pub fn enrichment_view(load: EnrichmentLoad) -> (r: (Option<EnrichmentSnapshot>, Vec<Diagnostic>))
    ensures
        match load {
            EnrichmentLoad::Loaded(s) => r.0 == Some(s) && r.1@.len() == 0,
            EnrichmentLoad::Stale => r.0 is None && diagnostics_view(r.1@) == seq![stale_enrichment_note()],
            EnrichmentLoad::Missing => r.0 is None && r.1@.len() == 0,
        },
{
    match load {
        EnrichmentLoad::Loaded(s) => (Some(s), Vec::new()),
        EnrichmentLoad::Stale => {
            let mut v: Vec<Diagnostic> = Vec::new();
            v.push(make_diag("warn", String::from_str("Enrichment needs Re-enrich (schema outdated)")));
            assert(diagnostics_view(v@) =~= seq![stale_enrichment_note()]);
            (None, v)
        },
        EnrichmentLoad::Missing => (None, Vec::new()),
    }
}

/// The warning for a run whose saved report could not be read.
pub fn no_report_diagnostic(run_id: &str) -> (r: Diagnostic)
    ensures
        r@ == no_report_note(run_id@),
{
    let mut m = String::from_str("Run ");
    m.append(run_id);
    m.append(" has no readable saved report");
    make_diag("warn", m)
}

/// The warning for saved runs whose reports could not be read.
pub fn unreadable_diagnostic(ids: &Vec<String>) -> (r: Diagnostic)
    requires
        ids@.len() > 0,
    ensures
        r@ == unreadable_note(crate::enrichment::strings_view(ids@)),
{
    let ghost iv = crate::enrichment::strings_view(ids@);
    let mut list = ids[0].clone();
    let mut i: usize = 1;
    assert(iv.take(1) =~= seq![iv[0]]);
    while i < ids.len()
        invariant
            1 <= i <= ids@.len(),
            iv == crate::enrichment::strings_view(ids@),
            list@ == joined(iv.take(i as int)),
        decreases ids@.len() - i,
    {
        assert(iv.take(i + 1).drop_last() =~= iv.take(i as int));
        list.append(", ");
        list.append(ids[i].as_str());
        i = i + 1;
    }
    assert(iv.take(ids@.len() as int) =~= iv);
    let mut m = decimal_string(ids.len() as u64);
    m.append(" saved run(s) skipped — unreadable report: ");
    m.append(list.as_str());
    make_diag("warn", m)
}
} // verus!
