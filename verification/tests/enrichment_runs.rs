use chrono::{TimeZone, Utc};
use incfleetchat::analytics_types::{
    Diagnostic, EnrichmentSite, EnrichmentSnapshot, EnrichmentSource, EnrichmentTotals, MissileStat,
};
use incfleetchat::enrichment::{aggregate_enrichments, enrich_run, resolve_fc, try_aggregate_enrichments, try_enrich_run};
use incfleetchat::gamelog_parse::{GamelogEvent, GamelogEventKind};
use incfleetchat::gamelog_scan::ListenerLog;

fn ts(h: u32, m: u32, s: u32) -> i64 {
    Utc.with_ymd_and_hms(2026, 8, 2, h, m, s).unwrap().timestamp()
}

fn ev(h: u32, m: u32, s: u32, kind: GamelogEventKind) -> GamelogEvent {
    GamelogEvent { occurred_at: ts(h, m, s), kind, raw_hint: String::new() }
}

fn listener_log(name: &str, events: Vec<GamelogEvent>) -> ListenerLog {
    ListenerLog { listener: name.to_string(), path: format!("{name}.txt"), events }
}

fn avg(t: &EnrichmentTotals) -> Option<f64> {
    t.combat_to_payout_seconds.map(|s| s as f64 / t.combat_sites as f64)
}

fn run(
    logs: Vec<ListenerLog>,
    times: Vec<i64>,
    durations: Vec<Option<i64>>,
    run_start: Option<i64>,
    fc: Option<&str>,
) -> EnrichmentSnapshot {
    enrich_run(&logs, &times, &durations, 25, run_start, 156, 6, fc, None)
}

#[test]
fn approach_is_duration_minus_combat_after_following_warp() {
    let pilot = listener_log(
        "Pilot",
        vec![ev(20, 1, 0, GamelogEventKind::FollowingWarp), ev(20, 2, 30, GamelogEventKind::CombatHit)],
    );
    let snap = run(vec![pilot], vec![ts(20, 0, 0), ts(20, 10, 0)], vec![None, Some(600)], Some(ts(19, 55, 0)), Some("Pilot"));
    let site = &snap.sites[1];
    assert_eq!(site.combat_to_payout_seconds, Some(450));
    assert_eq!(site.approach_seconds, Some(150));
    assert_eq!(site.source, EnrichmentSource::Fleet);
}

#[test]
fn combat_hit_before_following_warp_ignored() {
    let pilot = listener_log(
        "Pilot",
        vec![
            ev(20, 0, 30, GamelogEventKind::CombatHit),
            ev(20, 1, 0, GamelogEventKind::FollowingWarp),
            ev(20, 2, 0, GamelogEventKind::CombatHit),
        ],
    );
    let snap = run(vec![pilot], vec![ts(20, 0, 0), ts(20, 10, 0)], vec![None, Some(600)], Some(ts(19, 55, 0)), None);
    let site = &snap.sites[1];
    assert_eq!(site.combat_to_payout_seconds, Some(480));
    assert_eq!(site.approach_seconds, Some(120));
}

#[test]
fn no_following_warp_null_combat_and_approach() {
    let pilot = listener_log("Pilot", vec![ev(20, 2, 0, GamelogEventKind::CombatHit)]);
    let snap = run(vec![pilot], vec![ts(20, 0, 0), ts(20, 10, 0)], vec![None, Some(600)], Some(ts(19, 55, 0)), None);
    let site = &snap.sites[1];
    assert_eq!(site.combat_to_payout_seconds, None);
    assert_eq!(site.approach_seconds, None);
    assert_eq!(site.source, EnrichmentSource::Heuristic);
}

#[test]
fn break_duration_none_nulls_approach_and_combat() {
    let pilot = listener_log(
        "Pilot",
        vec![ev(20, 1, 0, GamelogEventKind::FollowingWarp), ev(20, 2, 0, GamelogEventKind::CombatHit)],
    );
    let snap = run(vec![pilot], vec![ts(20, 0, 0), ts(20, 40, 0)], vec![None, None], Some(ts(19, 55, 0)), None);
    let site = &snap.sites[1];
    assert_eq!(site.combat_to_payout_seconds, None);
    assert_eq!(site.approach_seconds, None);
}

#[test]
fn negative_residual_yields_null_approach() {
    let pilot = listener_log(
        "Pilot",
        vec![ev(20, 1, 0, GamelogEventKind::FollowingWarp), ev(20, 1, 40, GamelogEventKind::CombatHit)],
    );
    let snap = run(vec![pilot], vec![ts(20, 0, 0), ts(20, 10, 0)], vec![None, Some(100)], Some(ts(19, 55, 0)), None);
    let site = &snap.sites[1];
    assert_eq!(site.combat_to_payout_seconds, Some(500));
    assert_eq!(site.approach_seconds, None);
}

#[test]
fn no_markers_long_gap_is_break() {
    let snap = run(vec![listener_log("FC Pilot", vec![])], vec![ts(20, 0, 0), ts(20, 40, 0)], vec![None, None], Some(ts(19, 55, 0)), None);
    let site = &snap.sites[1];
    assert!(site.is_break);
    assert_eq!(site.approach_seconds, None);
    assert_eq!(site.combat_to_payout_seconds, None);
    assert_eq!(site.source, EnrichmentSource::Heuristic);
}

#[test]
fn no_markers_short_gap_not_break_null_combat_without_fc_events() {
    let snap = run(vec![listener_log("FC Pilot", vec![])], vec![ts(20, 0, 0), ts(20, 10, 0)], vec![None, None], Some(ts(19, 55, 0)), None);
    let site = &snap.sites[1];
    assert!(!site.is_break);
    assert_eq!(site.approach_seconds, None);
    assert_eq!(site.combat_to_payout_seconds, None);
    assert_eq!(site.source, EnrichmentSource::Heuristic);
}

fn gunner(hits: u32) -> ListenerLog {
    let mut events = vec![ev(20, 1, 0, GamelogEventKind::Reload), ev(20, 5, 0, GamelogEventKind::Reload)];
    events.extend((0..hits).map(|i| ev(20, 2, i % 60, GamelogEventKind::CombatHit)));
    listener_log("Gunner", events)
}

#[test]
fn dead_missiles_two_reloads_100_hits_cycle_156() {
    let snap = run(vec![gunner(100)], vec![ts(20, 8, 0)], vec![None], Some(ts(20, 0, 0)), None);
    assert_eq!(snap.missiles.len(), 1);
    let m = &snap.missiles[0];
    assert_eq!(m.reload_cycles, 2);
    assert_eq!(m.hits, 100);
    assert_eq!(m.missiles_per_cycle, 156);
    assert_eq!(m.dead, 0);
    assert_eq!(snap.totals.fleet_dead, 0);
}

#[test]
fn dead_missiles_is_dead_volleys_times_launchers() {
    let snap = run(vec![gunner(35)], vec![ts(20, 8, 0)], vec![None], Some(ts(20, 0, 0)), None);
    let m = &snap.missiles[0];
    assert_eq!(m.dead, 102);
    assert_eq!(snap.totals.fleet_dead, 102);
}

#[test]
fn dead_missiles_without_launchers_is_zero() {
    let snap = enrich_run(&vec![gunner(0)], &vec![ts(20, 8, 0)], &vec![None], 25, Some(ts(20, 0, 0)), 156, 0, None, None);
    assert_eq!(snap.missiles[0].dead, 0);
    assert_eq!(snap.missiles[0].launchers, 0);
}

#[test]
fn enrichment_first_site_without_run_start_excluded_from_avg() {
    let fc = listener_log(
        "FC Pilot",
        vec![ev(20, 10, 0, GamelogEventKind::FollowingWarp), ev(20, 12, 0, GamelogEventKind::CombatHit)],
    );
    let snap = run(vec![fc], vec![ts(20, 0, 0), ts(20, 20, 0)], vec![None, Some(600)], None, Some("FC Pilot"));
    let first = &snap.sites[0];
    assert_eq!(first.approach_seconds, None);
    assert_eq!(first.combat_to_payout_seconds, None);
    assert!(!first.is_break);
    let second = &snap.sites[1];
    assert_eq!(second.approach_seconds, Some(120));
    assert_eq!(second.combat_to_payout_seconds, Some(480));
    assert_eq!(avg(&snap.totals), Some(480.0));
    assert_eq!(snap.totals.approach_seconds, Some(120));
    assert_eq!(snap.totals.combat_to_payout_seconds, Some(480));
}

#[test]
fn events_outside_run_window_are_ignored() {
    let fc = listener_log(
        "FC Pilot",
        vec![
            ev(18, 0, 0, GamelogEventKind::FollowingWarp),
            ev(18, 0, 5, GamelogEventKind::FollowingWarp),
            ev(18, 1, 0, GamelogEventKind::Reload),
            ev(20, 3, 0, GamelogEventKind::CombatAny),
        ],
    );
    let member = listener_log(
        "Member Pilot",
        vec![ev(20, 1, 0, GamelogEventKind::FollowingWarp), ev(22, 0, 0, GamelogEventKind::Reload)],
    );
    let snap = run(vec![fc, member], vec![ts(20, 0, 0), ts(20, 8, 0)], vec![None, None], Some(ts(19, 55, 0)), None);
    assert_eq!(snap.resolved_fc.as_deref(), Some("FC Pilot"));
    assert_eq!(snap.totals.fleet_dead, 0);
    for m in &snap.missiles {
        assert_eq!(m.reload_cycles, 0, "listener {}", m.listener);
    }
}

#[test]
fn combat_null_on_break_and_when_no_combat() {
    let break_snap = run(vec![listener_log("FC Pilot", vec![])], vec![ts(20, 0, 0), ts(20, 40, 0)], vec![None, None], Some(ts(19, 55, 0)), None);
    let break_site = &break_snap.sites[1];
    assert!(break_site.is_break);
    assert_eq!(break_site.combat_to_payout_seconds, None);

    let fc_no_combat = listener_log(
        "FC Pilot",
        vec![ev(20, 1, 0, GamelogEventKind::FollowingWarp), ev(20, 2, 0, GamelogEventKind::Regrouping)],
    );
    let snap = run(vec![fc_no_combat], vec![ts(20, 0, 0), ts(20, 8, 0)], vec![None, Some(480)], Some(ts(19, 55, 0)), Some("FC Pilot"));
    let site = &snap.sites[1];
    assert!(!site.is_break);
    assert_eq!(site.combat_to_payout_seconds, None);
    assert_eq!(site.approach_seconds, None);
    assert_eq!(site.source, EnrichmentSource::Fleet);
}

#[test]
fn first_site_without_run_start_has_null_combat() {
    let fc = listener_log(
        "FC Pilot",
        vec![ev(20, 10, 0, GamelogEventKind::FollowingWarp), ev(20, 12, 0, GamelogEventKind::CombatAny)],
    );
    let snap = run(vec![fc], vec![ts(20, 0, 0), ts(20, 20, 0)], vec![None, None], None, Some("FC Pilot"));
    let first = &snap.sites[0];
    assert_eq!(first.approach_seconds, None);
    assert_eq!(first.combat_to_payout_seconds, None);
    assert!(!first.is_break);
}

#[test]
fn combat_any_does_not_start_combat_to_payout() {
    let fc = listener_log(
        "FC Pilot",
        vec![
            ev(20, 1, 0, GamelogEventKind::FollowingWarp),
            ev(20, 2, 0, GamelogEventKind::Regrouping),
            ev(20, 2, 30, GamelogEventKind::CombatAny),
        ],
    );
    let snap = run(vec![fc], vec![ts(20, 0, 0), ts(20, 8, 0)], vec![None, Some(400)], Some(ts(19, 55, 0)), Some("FC Pilot"));
    let site = &snap.sites[1];
    assert_eq!(site.combat_to_payout_seconds, None);
    assert_eq!(site.approach_seconds, None);
    assert_eq!(site.source, EnrichmentSource::Fleet);
}

#[test]
fn combat_from_non_fc_hit_when_fc_quiet() {
    let fc = listener_log(
        "FC Pilot",
        vec![ev(20, 1, 0, GamelogEventKind::FollowingWarp), ev(20, 2, 0, GamelogEventKind::Regrouping)],
    );
    let alt = listener_log("Alt Pilot", vec![ev(20, 3, 0, GamelogEventKind::CombatHit)]);
    let snap = run(vec![fc, alt], vec![ts(20, 0, 0), ts(20, 8, 0)], vec![None, Some(360)], Some(ts(19, 55, 0)), Some("FC Pilot"));
    let site = &snap.sites[1];
    assert_eq!(site.combat_to_payout_seconds, Some(300));
    assert_eq!(site.approach_seconds, Some(60));
    assert_eq!(site.source, EnrichmentSource::Fleet);
}

#[test]
fn resolve_fc_prefers_settings_name() {
    let logs = vec![listener_log("Alice", vec![]), listener_log("Bob", vec![])];
    assert_eq!(resolve_fc(&logs, Some("Bob"), None).as_deref(), Some("Bob"));
    assert_eq!(resolve_fc(&logs, Some("  Bob  "), None).as_deref(), Some("Bob"));
}

#[test]
fn resolve_fc_falls_back_to_wallet_hint_then_fewest_warps() {
    let a = listener_log("Alice", vec![ev(20, 0, 0, GamelogEventKind::FollowingWarp)]);
    let b = listener_log("Bob", vec![]);
    let logs = vec![a, b];
    assert_eq!(resolve_fc(&logs, None, Some("Bob")).as_deref(), Some("Bob"));
    assert_eq!(resolve_fc(&logs, None, Some("Nobody")).as_deref(), Some("Bob"), "falls back to fewest following_warp events");
    assert_eq!(resolve_fc(&vec![], Some("Bob"), None), None);
}

#[test]
fn site_missiles_count_only_events_in_gap() {
    let mut events = vec![
        ev(20, 5, 0, GamelogEventKind::Reload),
        ev(20, 6, 0, GamelogEventKind::CombatHit),
        ev(20, 12, 0, GamelogEventKind::Reload),
    ];
    events.extend((0..50).map(|i| ev(20, 15, i % 60, GamelogEventKind::CombatHit)));
    let gunner = listener_log("Gunner", events);
    let snap = run(vec![gunner], vec![ts(20, 10, 0), ts(20, 20, 0)], vec![Some(600), Some(600)], Some(ts(20, 0, 0)), None);
    assert!(snap.sites[0].missiles.iter().any(|m| m.listener == "Gunner"));
    let s0 = snap.sites[0].missiles.iter().find(|m| m.listener == "Gunner").unwrap();
    assert_eq!(s0.reload_cycles, 1);
    assert_eq!(s0.hits, 1);
    let s1 = snap.sites[1].missiles.iter().find(|m| m.listener == "Gunner").unwrap();
    assert_eq!(s1.reload_cycles, 1);
    assert_eq!(s1.hits, 50);
    assert_eq!(s1.dead, 0);
}

#[test]
fn break_site_has_empty_missiles_but_run_totals_keep_break_gap_events() {
    let gunner = listener_log(
        "Gunner",
        vec![ev(20, 5, 0, GamelogEventKind::Reload), ev(20, 40, 0, GamelogEventKind::Reload)],
    );
    let snap = run(vec![gunner], vec![ts(20, 10, 0), ts(21, 0, 0)], vec![Some(600), None], Some(ts(20, 0, 0)), None);
    assert!(snap.sites[1].is_break);
    assert!(snap.sites[1].missiles.is_empty());
    let total = snap.missiles.iter().find(|m| m.listener == "Gunner").unwrap();
    assert_eq!(total.reload_cycles, 2);
}

#[test]
fn unalignable_first_site_has_empty_missiles() {
    let gunner = listener_log("Gunner", vec![ev(20, 1, 0, GamelogEventKind::Reload)]);
    let snap = run(vec![gunner], vec![ts(20, 10, 0)], vec![Some(600)], None, None);
    assert!(snap.sites[0].missiles.is_empty());
}

#[test]
fn no_logs_warns_and_lists_no_listeners() {
    let snap = run(vec![], vec![ts(20, 10, 0)], vec![Some(600)], Some(ts(20, 0, 0)), None);
    assert_eq!(snap.diagnostics.len(), 1);
    assert_eq!(snap.diagnostics[0].level, "warn");
    assert_eq!(snap.diagnostics[0].message, "No listeners with gamelogs in range; enrichment skipped.");
    assert!(snap.listeners.is_empty());
    assert_eq!(snap.resolved_fc, None);
}

fn agg_site(occurred_at: i64, approach: i64, combat: Option<i64>, is_break: bool) -> EnrichmentSite {
    EnrichmentSite {
        occurred_at,
        approach_seconds: Some(approach),
        combat_to_payout_seconds: combat,
        is_break,
        source: EnrichmentSource::Fc,
        missiles: vec![],
    }
}

fn agg_missile(listener: &str, cycles: u32, hits: u32, per_cycle: u32, dead: u32) -> MissileStat {
    MissileStat { listener: listener.into(), reload_cycles: cycles, hits, missiles_per_cycle: per_cycle, launchers: 6, dead }
}

fn empty_snapshot(resolved_fc: Option<&str>) -> EnrichmentSnapshot {
    EnrichmentSnapshot {
        resolved_fc: resolved_fc.map(|s| s.to_string()),
        listeners: Vec::new(),
        diagnostics: Vec::new(),
        sites: Vec::new(),
        missiles: Vec::new(),
        totals: EnrichmentTotals { approach_seconds: None, combat_to_payout_seconds: None, combat_sites: 0, fleet_dead: 0 },
    }
}

fn t(h: u32, m: u32) -> i64 {
    Utc.with_ymd_and_hms(2026, 7, 29, h, m, 0).unwrap().timestamp()
}

fn two_runs_same_listener() -> Vec<(String, EnrichmentSnapshot)> {
    let mut run1 = empty_snapshot(Some("FC One"));
    run1.listeners = vec!["A".into()];
    run1.sites = vec![agg_site(t(23, 0), 60, Some(120), false)];
    run1.missiles = vec![agg_missile("A", 1, 10, 156, 5)];
    let mut run2 = empty_snapshot(Some("FC Two"));
    run2.listeners = vec!["A".into()];
    run2.sites = vec![agg_site(t(23, 10), 40, Some(80), false)];
    run2.missiles = vec![agg_missile("A", 2, 20, 200, 7)];
    vec![("run-1".to_string(), run1), ("run-2".to_string(), run2)]
}

fn check_sums_same_listener(aggregate: &EnrichmentSnapshot) {
    assert_eq!(aggregate.missiles.len(), 1);
    let a = &aggregate.missiles[0];
    assert_eq!(a.reload_cycles, 3);
    assert_eq!(a.hits, 30);
    assert_eq!(a.dead, 12);
    assert_eq!(a.missiles_per_cycle, 200);
    assert_eq!(aggregate.sites.len(), 2);
    assert_eq!(aggregate.totals.approach_seconds, Some(100));
    assert_eq!(aggregate.totals.combat_to_payout_seconds, Some(200));
    assert_eq!(avg(&aggregate.totals), Some(100.0));
    assert_eq!(aggregate.totals.fleet_dead, 12);
    assert_eq!(aggregate.resolved_fc.as_deref(), Some("FC Two"));
    assert_eq!(aggregate.listeners, vec!["A".to_string()]);
}

#[test]
fn enrichment_aggregate_sums_same_listener_and_keeps_latest_cycle() {
    check_sums_same_listener(&aggregate_enrichments(&two_runs_same_listener(), 2));
}

#[test]
fn run_desk_aggregate_sums_same_listener_and_keeps_latest_cycle() {
    check_sums_same_listener(&aggregate_enrichments(&two_runs_same_listener(), 2));
}

fn listeners_and_break_runs() -> Vec<(String, EnrichmentSnapshot)> {
    let mut run1 = empty_snapshot(Some("FC One"));
    run1.listeners = vec!["A".into()];
    run1.sites = vec![agg_site(t(23, 0), 0, None, true)];
    run1.missiles = vec![agg_missile("A", 1, 5, 156, 2)];
    let mut run2 = empty_snapshot(None);
    run2.listeners = vec!["B".into()];
    run2.sites = vec![agg_site(t(23, 30), 30, Some(60), false)];
    run2.missiles = vec![agg_missile("B", 1, 8, 156, 3)];
    vec![("run-1".to_string(), run1), ("run-2".to_string(), run2)]
}

fn check_unions(aggregate: &EnrichmentSnapshot) {
    assert_eq!(aggregate.listeners, vec!["A".to_string(), "B".to_string()]);
    assert_eq!(aggregate.totals.approach_seconds, Some(30));
    assert_eq!(aggregate.totals.combat_to_payout_seconds, Some(60));
    assert_eq!(avg(&aggregate.totals), Some(60.0));
    assert_eq!(aggregate.totals.fleet_dead, 5);
    assert_eq!(aggregate.resolved_fc, None);
}

#[test]
fn enrichment_aggregate_unions_listeners_and_excludes_break_sites_from_combat() {
    check_unions(&aggregate_enrichments(&listeners_and_break_runs(), 2));
}

#[test]
fn run_desk_aggregate_unions_listeners_and_excludes_break_sites_from_combat() {
    check_unions(&aggregate_enrichments(&listeners_and_break_runs(), 2));
}

fn one_unenriched_scope() -> Vec<(String, EnrichmentSnapshot)> {
    let mut s = empty_snapshot(Some("FC One"));
    s.sites = vec![agg_site(t(23, 0), 10, None, false)];
    vec![("run-1".to_string(), s)]
}

#[test]
fn enrichment_aggregate_warns_when_scope_has_unenriched_runs() {
    let aggregate = aggregate_enrichments(&one_unenriched_scope(), 3);
    assert!(aggregate.diagnostics.iter().any(|d| d.level == "warn" && d.message == "2 of 3 runs lack enrichment"));
}

#[test]
fn run_desk_aggregate_warns_when_scope_has_unenriched_runs() {
    let aggregate = aggregate_enrichments(&one_unenriched_scope(), 3);
    assert!(aggregate.diagnostics.iter().any(|d| d.level == "warn" && d.message == "2 of 3 runs lack enrichment"));
}

fn duplicated_diagnostics() -> (Diagnostic, Vec<(String, EnrichmentSnapshot)>) {
    let dup = Diagnostic { level: "warn".into(), message: "skipped malformed gamelog line".into() };
    let mut run1 = empty_snapshot(Some("FC One"));
    run1.diagnostics = vec![dup.clone()];
    let mut run2 = empty_snapshot(Some("FC Two"));
    run2.diagnostics = vec![dup.clone()];
    (dup, vec![("run-1".to_string(), run1), ("run-2".to_string(), run2)])
}

#[test]
fn enrichment_aggregate_dedupes_repeated_diagnostics_across_runs() {
    let (dup, runs) = duplicated_diagnostics();
    let aggregate = aggregate_enrichments(&runs, 2);
    let matching = aggregate.diagnostics.iter().filter(|d| d.level == dup.level && d.message == dup.message).count();
    assert_eq!(matching, 1);
}

#[test]
fn run_desk_aggregate_dedupes_repeated_diagnostics_across_runs() {
    let (dup, runs) = duplicated_diagnostics();
    let aggregate = aggregate_enrichments(&runs, 2);
    let matching = aggregate.diagnostics.iter().filter(|d| d.level == dup.level && d.message == dup.message).count();
    assert_eq!(matching, 1);
}

#[test]
fn enrichment_aggregate_warns_when_all_runs_lack_enrichment() {
    let aggregate = aggregate_enrichments(&vec![], 3);
    assert!(aggregate.sites.is_empty());
    assert!(aggregate.missiles.is_empty());
    assert!(aggregate.diagnostics.iter().any(|d| d.level == "warn" && d.message == "3 of 3 runs lack enrichment"));
}

#[test]
fn run_desk_aggregate_warns_when_all_runs_lack_enrichment() {
    let aggregate = aggregate_enrichments(&vec![], 3);
    assert!(aggregate.sites.is_empty());
    assert!(aggregate.missiles.is_empty());
    assert!(aggregate.diagnostics.iter().any(|d| d.level == "warn" && d.message == "3 of 3 runs lack enrichment"));
}

#[test]
fn enrichment_aggregate_no_warning_when_all_runs_in_scope_enriched() {
    let aggregate = aggregate_enrichments(&one_unenriched_scope(), 1);
    assert!(!aggregate.diagnostics.iter().any(|d| d.message.contains("lack enrichment")));
}

#[test]
fn run_desk_aggregate_no_warning_when_all_runs_in_scope_enriched() {
    let aggregate = aggregate_enrichments(&one_unenriched_scope(), 1);
    assert!(!aggregate.diagnostics.iter().any(|d| d.message.contains("lack enrichment")));
}

#[test]
fn aggregate_keeps_total_dead_missiles() {
    let mut runs = two_runs_same_listener();
    runs.extend(listeners_and_break_runs());
    let input: u32 = runs.iter().flat_map(|(_, s)| s.missiles.iter()).map(|m| m.dead).sum();
    let aggregate = aggregate_enrichments(&runs, 4);
    let output: u32 = aggregate.missiles.iter().map(|m| m.dead).sum();
    assert_eq!(input, output);
    assert_eq!(aggregate.totals.fleet_dead, 17);
    assert_eq!(aggregate.missiles.len(), 2);
    assert_eq!(aggregate.missiles[0].listener, "A");
    assert_eq!(aggregate.missiles[0].missiles_per_cycle, 156);
}

#[test]
fn try_enrich_run_matches_enrich_run_on_ordinary_input() {
    let pilot = listener_log(
        "Pilot",
        vec![ev(20, 1, 0, GamelogEventKind::FollowingWarp), ev(20, 2, 30, GamelogEventKind::CombatHit)],
    );
    let times = vec![ts(20, 0, 0), ts(20, 10, 0)];
    let durations = vec![None, Some(600)];
    let snap = try_enrich_run(&vec![pilot], &times, &durations, 25, Some(ts(19, 55, 0)), 156, 6, Some("Pilot"), None)
        .expect("ordinary input enriches");
    assert_eq!(snap.sites[1].combat_to_payout_seconds, Some(450));
    assert_eq!(snap.sites[1].approach_seconds, Some(150));
    assert_eq!(snap.totals.combat_to_payout_seconds, Some(450));
    assert_eq!(snap.totals.combat_sites, 1);
    assert_eq!(snap.resolved_fc.as_deref(), Some("Pilot"));
}

#[test]
fn try_enrich_run_refuses_times_out_of_range() {
    let out = try_enrich_run(&vec![], &vec![i64::MAX], &vec![None], 25, None, 156, 6, None, None);
    assert!(out.is_none());
    let out = try_enrich_run(&vec![], &vec![ts(20, 0, 0)], &vec![None], 25, Some(i64::MIN), 156, 6, None, None);
    assert!(out.is_none());
}

#[test]
fn try_aggregate_refuses_overflowing_listener_sums() {
    let mut run1 = empty_snapshot(None);
    run1.missiles = vec![agg_missile("A", u32::MAX, 0, 156, 0)];
    let mut run2 = empty_snapshot(None);
    run2.missiles = vec![agg_missile("A", 1, 0, 156, 0)];
    let runs = vec![("r1".to_string(), run1), ("r2".to_string(), run2)];
    assert!(try_aggregate_enrichments(&runs, 2).is_none());
}

#[test]
fn try_aggregate_refuses_overflowing_dead_total() {
    let mut run1 = empty_snapshot(None);
    run1.missiles = vec![agg_missile("A", 1, 0, 156, u32::MAX)];
    let mut run2 = empty_snapshot(None);
    run2.missiles = vec![agg_missile("B", 1, 0, 156, 1)];
    let runs = vec![("r1".to_string(), run1), ("r2".to_string(), run2)];
    assert!(try_aggregate_enrichments(&runs, 2).is_none());
}

#[test]
fn try_aggregate_matches_aggregate_on_ordinary_input() {
    let aggregate = try_aggregate_enrichments(&two_runs_same_listener(), 2).expect("sums fit");
    check_sums_same_listener(&aggregate);
}

#[test]
fn try_aggregate_accepts_running_sums_that_fit_with_mixed_signs() {
    let mut run1 = empty_snapshot(None);
    run1.sites = vec![
        agg_site(t(23, 0), 6_000_000_000_000_000_000, None, false),
        agg_site(t(23, 5), -6_000_000_000_000_000_000, None, false),
        agg_site(t(23, 9), 6_000_000_000_000_000_000, None, false),
    ];
    let aggregate = try_aggregate_enrichments(&vec![("r1".to_string(), run1)], 1).expect("running sums fit");
    assert_eq!(aggregate.totals.approach_seconds, Some(6_000_000_000_000_000_000));
}
