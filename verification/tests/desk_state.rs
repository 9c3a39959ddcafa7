use chrono::{TimeZone, Utc};
use incfleetchat::analytics_types::{
    AmendOp, Catalog, EnrichmentSnapshot, EnrichmentTotals, ReportScope, RunSummary, SpawnSummary, Tray,
};
use incfleetchat::commands::SettingsPatch;
use incfleetchat::enrichment_pipeline::{add_scan_diagnostics, missing_dir_message, plan_enrichment, wallet_fc_hint};
use incfleetchat::idset::IdSet;
use incfleetchat::parse::parse_site_candidates;
use incfleetchat::run_desk::{
    enrichment_view, no_report_diagnostic, run_id_of, unreadable_diagnostic, DeleteRunOutcome, DeskState,
    EnrichmentLoad, ReenrichTarget,
};
use incfleetchat::state::{candidates_in_range, Overlay, RefreshStep};
use incfleetchat::timing::{build_report, RunSettings};
use incfleetchat::types::{AppSettings, Board, BoardStatus, OverlaySettings};

const WALLET: &str = "\
2026.07.29 23:42\tCorporate Reward Payout\t15,000,000 ISK\t1 ISK\tCONCORD rewarded tomar norris for services performed.\n\
2026.07.29 23:08\tCorporate Reward Payout\t15,000,000 ISK\t1 ISK\tCONCORD rewarded hamilton norris for services performed.\n\
2026.07.29 22:00\tAgent Mission Reward\t1,000,000 ISK\t100 ISK\tnoise\n";

const MANIFEST: &str = "New Null-Sec Incursion: 4MY-AB - Immensea\nStaging System\nF76-8Q\n";

fn empty_snapshot() -> EnrichmentSnapshot {
    EnrichmentSnapshot {
        resolved_fc: None,
        listeners: vec![],
        diagnostics: vec![],
        sites: vec![],
        missiles: vec![],
        totals: EnrichmentTotals { approach_seconds: None, combat_to_payout_seconds: None, combat_sites: 0, fleet_dead: 0 },
    }
}

#[test]
fn wallet_pastes_accumulate_and_report_ignored_lines() {
    let mut desk = DeskState::new();
    desk.paste(Tray::Wallet, WALLET);
    assert_eq!(desk.wallet_batches, 1);
    assert_eq!(desk.pending.len(), 2);
    assert_eq!(desk.diagnostics.len(), 1);
    assert_eq!(desk.diagnostics[0].level, "info");
    assert_eq!(desk.diagnostics[0].message, "1 wallet lines ignored (type/amount/parse)");
    desk.paste(Tray::Wallet, "2026.07.29 23:08\tCorporate Reward Payout\t15,000,000 ISK\t1 ISK\tdup\n");
    assert_eq!(desk.wallet_batches, 2);
    assert_eq!(desk.pending.len(), 2);
    assert!(desk.wallet_text.ends_with("\n2026.07.29 23:08\tCorporate Reward Payout\t15,000,000 ISK\t1 ISK\tdup\n"));
    let messages: Vec<&str> = desk.diagnostics.iter().map(|d| d.message.as_str()).collect();
    assert_eq!(messages, vec!["1 wallet lines ignored (type/amount/parse)", "1 duplicate payouts dropped"]);
}

#[test]
fn manifest_paste_stages_spawn_or_warns() {
    let mut desk = DeskState::new();
    desk.paste(Tray::Manifest, "just text\n");
    assert_eq!(desk.diagnostics.len(), 1);
    assert_eq!(desk.diagnostics[0].message, "Manifest paste missing constellation");
    assert_eq!(desk.analyze_check(), Err("Constellation required — paste a Manifest first".to_string()));
    desk.paste(Tray::Manifest, MANIFEST);
    assert!(desk.diagnostics.is_empty());
    assert_eq!(desk.staging_spawn.as_ref().unwrap().constellation.as_deref(), Some("4MY-AB"));
    assert_eq!(desk.analyze_check(), Err("No qualifying Corporate Reward Payout rows for expected ISK".to_string()));
    desk.paste(Tray::Wallet, WALLET);
    assert_eq!(desk.analyze_check(), Ok("4MY-AB".to_string()));
    assert_eq!(desk.trays().manifest, "staged");
    assert_eq!(desk.trays().pending_sites, 2);
}

#[test]
fn seal_clears_wallet_and_focuses_spawn() {
    let mut desk = DeskState::new();
    desk.paste(Tray::Wallet, WALLET);
    desk.seal("4MY-AB-1".to_string(), "4MY-AB".to_string(), 2, Some("Gamelogs directory missing".to_string()));
    assert_eq!(desk.sealed_run_id.as_deref(), Some("4MY-AB-1"));
    assert_eq!(desk.scope, ReportScope::Spawn { constellation: "4MY-AB".into() });
    assert!(desk.wallet_text.is_empty());
    assert_eq!(desk.wallet_batches, 0);
    assert!(desk.pending.is_empty());
    let n = desk.diagnostics.len();
    assert_eq!(desk.diagnostics[n - 2].message, "Saved run 4MY-AB-1 (2 sites)");
    assert_eq!(desk.diagnostics[n - 1].message, "Gamelog enrichment skipped: Gamelogs directory missing");
    assert_eq!(desk.diagnostics[n - 1].level, "warn");
}

#[test]
fn amend_ops() {
    let mut desk = DeskState::new();
    desk.paste(Tray::Wallet, WALLET);
    let mut s = RunSettings::default();
    s.expected_isk = 1_000_000;
    assert_eq!(desk.amend(AmendOp::SetSessionSettings { settings: s }), None);
    assert_eq!(desk.pending.len(), 0);
    assert_eq!(desk.amend(AmendOp::OpenRun { run_id: "r1".into() }), None);
    assert_eq!(desk.scope, ReportScope::Run { run_id: "r1".into() });
    assert_eq!(desk.amend(AmendOp::ReenrichRun { run_id: None }), Some(ReenrichTarget::One("r1".into())));
    assert_eq!(desk.amend(AmendOp::ReenrichRun { run_id: Some("r9".into()) }), Some(ReenrichTarget::One("r9".into())));
    assert_eq!(desk.amend(AmendOp::SetConstellation { constellation: "  Kino  ".into() }), None);
    assert_eq!(desk.staging_spawn.as_ref().unwrap().constellation.as_deref(), Some("Kino"));
    assert_eq!(desk.amend(AmendOp::ClearWalletTray), None);
    assert!(desk.wallet_text.is_empty());
    desk.after_clear_all();
    assert_eq!(desk.amend(AmendOp::ReenrichRun { run_id: None }), Some(ReenrichTarget::All));
}

#[test]
fn reenrich_messages() {
    let mut desk = DeskState::new();
    desk.record_reenrich(&vec![("a".into(), None), ("b".into(), Some("Run b not found".into()))]);
    let messages: Vec<(&str, &str)> = desk.diagnostics.iter().map(|d| (d.level.as_str(), d.message.as_str())).collect();
    assert_eq!(messages, vec![("warn", "Failed re-enrich b: Run b not found"), ("warn", "1 of 2 re-enriched")]);
    let mut ok = DeskState::new();
    ok.record_reenrich(&vec![("a".into(), None)]);
    assert_eq!(ok.diagnostics[0].level, "info");
    assert_eq!(ok.diagnostics[0].message, "1 of 1 re-enriched");
    let mut none = DeskState::new();
    none.record_reenrich(&vec![]);
    assert!(none.diagnostics.is_empty());
}

#[test]
fn deletes_move_focus() {
    let mut desk = DeskState::new();
    desk.seal("r1".into(), "C1".into(), 1, None);
    desk.after_delete_run("r1", DeleteRunOutcome { constellation: "C1".into(), spawn_removed: false });
    assert_eq!(desk.sealed_run_id, None);
    assert_eq!(desk.scope, ReportScope::Spawn { constellation: "C1".into() });
    desk.seal("r2".into(), "C1".into(), 1, None);
    desk.after_delete_run("r3", DeleteRunOutcome { constellation: "C1".into(), spawn_removed: true });
    assert_eq!(desk.sealed_run_id.as_deref(), Some("r2"));
    assert_eq!(desk.scope, ReportScope::Overall);
    let catalog = Catalog {
        spawns: vec![],
        runs: vec![RunSummary { run_id: "r2".into(), constellation: "C1".into(), saved_at: 0, site_count: 1, liquid_isk: 1 }],
    };
    assert!(desk.sealed_in_spawn(&catalog, "C1"));
    assert!(!desk.sealed_in_spawn(&catalog, "C2"));
    desk.after_delete_spawn(true);
    assert_eq!(desk.sealed_run_id, None);
}

#[test]
fn spawn_summary_counts_catalog_runs() {
    let mut desk = DeskState::new();
    desk.paste(Tray::Manifest, MANIFEST);
    let catalog = Catalog {
        spawns: vec![SpawnSummary { constellation: "4MY-AB".into(), region: None, staging_system: None, hq_system: None, run_count: 4 }],
        runs: vec![],
    };
    let s = desk.spawn_summary(&catalog).unwrap();
    assert_eq!(s.run_count, 4);
    assert_eq!(s.region.as_deref(), Some("Immensea"));
    assert_eq!(s.staging_system.as_deref(), Some("F76-8Q"));
    assert_eq!(desk.spawn_summary(&Catalog::default()).unwrap().run_count, 0);
}

#[test]
fn run_ids_and_scope_messages() {
    assert_eq!(run_id_of("4MY-AB", 1_785_000_000_123), "4MY-AB-1785000000123");
    assert_eq!(run_id_of("X", -5), "X--5");
    assert_eq!(no_report_diagnostic("r1").message, "Run r1 has no readable saved report");
    let d = unreadable_diagnostic(&vec!["a".into(), "b".into()]);
    assert_eq!(d.message, "2 saved run(s) skipped — unreadable report: a, b");
    let (snap, diags) = enrichment_view(EnrichmentLoad::Stale);
    assert!(snap.is_none());
    assert_eq!(diags[0].message, "Enrichment needs Re-enrich (schema outdated)");
    let (snap, diags) = enrichment_view(EnrichmentLoad::Loaded(empty_snapshot()));
    assert!(snap.is_some() && diags.is_empty());
    let (snap, diags) = enrichment_view(EnrichmentLoad::Missing);
    assert!(snap.is_none() && diags.is_empty());
}

#[test]
fn enrichment_plan_from_report_and_settings() {
    let mut desk = DeskState::new();
    desk.paste(Tray::Wallet, WALLET);
    let mut settings = RunSettings::default();
    settings.run_start = Some(Utc.with_ymd_and_hms(2026, 7, 29, 22, 50, 0).unwrap().timestamp());
    let report = build_report(&desk.pending, &settings);
    let mut app = AppSettings::default();
    app.gamelogs_dir = Some("  /eve/Gamelogs  ".into());
    app.ammo_per_launcher = -3;
    let plan = plan_enrichment(&settings, &report, &app).unwrap();
    assert_eq!(plan.site_times.len(), 2);
    assert_eq!(plan.gamelogs_dir.as_deref(), Some("/eve/Gamelogs"));
    assert_eq!(plan.wallet_start, settings.run_start.unwrap());
    assert_eq!(plan.wallet_end, plan.site_times[1]);
    assert_eq!(plan.launchers, 6);
    assert_eq!(plan.missiles_per_cycle, 0);
    assert_eq!(plan.site_durations[0], Some(18 * 60));
    let app2 = AppSettings::default();
    assert_eq!(plan_enrichment(&settings, &report, &app2).unwrap().missiles_per_cycle, 156);
    let empty = build_report(&vec![], &settings);
    assert!(plan_enrichment(&settings, &empty, &app2).is_none());
    assert_eq!(wallet_fc_hint(WALLET, 15_000_000).as_deref(), Some("hamilton norris"));
    assert_eq!(wallet_fc_hint("", 15_000_000), None);
    assert_eq!(missing_dir_message("/x"), "Gamelogs directory not found: /x — enrichment unavailable");
    let mut snap = empty_snapshot();
    add_scan_diagnostics(&mut snap, &vec!["one".into()]);
    assert_eq!(snap.diagnostics[0].level, "warn");
    assert_eq!(snap.diagnostics[0].message, "one");
}

#[test]
fn settings_patch_replaces_only_given_fields() {
    let base = AppSettings::default();
    let patch = SettingsPatch {
        character: Some(Some("Pilot".into())),
        chatlogs_dir: None,
        always_on_top: Some(true),
        gamelogs_dir: Some(None),
        fc_character: None,
        ammo_launchers: Some(8),
        ammo_per_launcher: None,
    };
    let next = patch.apply(base);
    assert_eq!(next.character.as_deref(), Some("Pilot"));
    assert!(next.always_on_top);
    assert_eq!(next.gamelogs_dir, None);
    assert_eq!(next.ammo_launchers, 8);
    assert_eq!(next.ammo_per_launcher, 26);
}

fn overlay(character: Option<&str>) -> Overlay {
    Overlay {
        settings: OverlaySettings {
            character: character.map(|c| c.to_string()),
            chatlogs_dir: Some("/chat".into()),
            always_on_top: false,
            tracking_pip_enabled: true,
        },
        board: Board { status: BoardStatus::NoCharacter, sites: vec![], ready_count: 0, updated_at: 0 },
        ran_ids: IdSet::new(),
        cleared_ids: IdSet::new(),
        active_log: Some("/chat/old.txt".into()),
    }
}

#[test]
fn refresh_without_character_clears_board() {
    let mut o = overlay(Some(""));
    assert_eq!(o.refresh_begin(50), RefreshStep::Done);
    assert_eq!(o.board.status, BoardStatus::NoCharacter);
    assert_eq!(o.board.updated_at, 50);
    assert_eq!(o.active_log, None);
}

#[test]
fn refresh_steps_to_a_watching_board() {
    let mut o = overlay(Some("Pilot"));
    assert_eq!(
        o.refresh_begin(50),
        RefreshStep::ResolveLog { dir: Some("/chat".into()), character: "Pilot".into() }
    );
    let path = o.refresh_resolved("Pilot".into(), Ok(Some("/chat/Fleet_1.txt".into())), 50).unwrap();
    assert_eq!(o.active_log.as_deref(), Some("/chat/Fleet_1.txt"));
    let cands = parse_site_candidates("[ 2026.08.01 12:00:00 ] Pilot > 1\n");
    assert!(candidates_in_range(&cands));
    let now = Utc.with_ymd_and_hms(2026, 8, 1, 12, 5, 0).unwrap().timestamp();
    o.refresh_read("Pilot".into(), &path, Ok(cands), now);
    assert_eq!(o.board.status, BoardStatus::Watching { character: "Pilot".into(), log_name: "Fleet_1.txt".into() });
    assert_eq!(o.board.sites.len(), 1);
    assert_eq!(o.board.updated_at, now);
}

#[test]
fn refresh_errors_and_waiting() {
    let mut o = overlay(Some("Pilot"));
    assert_eq!(o.refresh_resolved("Pilot".into(), Err("denied".into()), 7), None);
    assert_eq!(o.board.status, BoardStatus::Error { message: "denied".into() });
    assert_eq!(o.active_log.as_deref(), Some("/chat/old.txt"));
    assert_eq!(o.refresh_resolved("Pilot".into(), Ok(None), 8), None);
    assert_eq!(o.board.status, BoardStatus::WaitingForLog { character: "Pilot".into() });
    assert_eq!(o.active_log, None);
    o.refresh_read("Pilot".into(), "/chat/Fleet_1.txt", Err("locked".into()), 9);
    assert_eq!(o.board.status, BoardStatus::Error { message: "locked".into() });
}

#[test]
fn clear_wallet_tray_keeps_the_staged_manifest() {
    let mut desk = DeskState::new();
    desk.paste(Tray::Manifest, "Constellation: Kino");
    let staged = desk.staging_spawn.clone();
    let manifest = desk.manifest_text.clone();
    desk.paste(Tray::Wallet, WALLET);
    let diagnostics = desk.diagnostics.clone();
    assert_eq!(desk.amend(AmendOp::ClearWalletTray), None);
    assert_eq!(desk.staging_spawn, staged);
    assert_eq!(desk.manifest_text, manifest);
    assert_eq!(desk.diagnostics, diagnostics);
    assert_eq!(desk.scope, ReportScope::Overall);
    assert!(desk.wallet_text.is_empty());
    assert_eq!(desk.wallet_batches, 0);
    assert!(desk.pending.is_empty());
}
