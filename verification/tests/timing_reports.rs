use chrono::{TimeZone, Utc};
use incfleetchat::timing::{build_report, hour_floor, merge_reports, try_build_report, try_merge_reports, RunSettings};
use incfleetchat::wallet_parse::WalletPayout;

fn at(y: i32, m: u32, d: u32, h: u32, min: u32) -> i64 {
    Utc.with_ymd_and_hms(y, m, d, h, min, 0).unwrap().timestamp()
}

fn payout(y: i32, m: u32, d: u32, h: u32, min: u32) -> WalletPayout {
    WalletPayout {
        occurred_at: at(y, m, d, h, min),
        amount_isk: 15_000_000,
        ref_type: "Corporate Reward Payout".into(),
        description: String::new(),
    }
}

#[test]
fn gaps_and_break() {
    let events = vec![
        payout(2026, 7, 29, 23, 0),
        payout(2026, 7, 29, 23, 6),
        payout(2026, 7, 29, 23, 50),
        payout(2026, 7, 29, 23, 56),
    ];
    let mut settings = RunSettings::default();
    settings.run_start = Some(at(2026, 7, 29, 22, 54));
    settings.break_threshold_minutes = 25;
    let report = build_report(&events, &settings);
    assert_eq!(report.session.sites_ran, 4);
    assert!(report.sites[2].is_break);
    assert!(!report.sites[1].is_break);
    assert_eq!(report.session.time_spent_seconds, 6 * 60 * 3);
    assert_eq!(report.session.timed_sites, 3);
    assert_eq!(report.sites[2].gap_seconds, Some(44 * 60));
    assert_eq!(report.sites[2].duration_seconds, None);
}

#[test]
fn timing_first_site_without_run_start_excluded_from_avg() {
    let events = vec![payout(2026, 7, 29, 23, 0), payout(2026, 7, 29, 23, 5)];
    let settings = RunSettings::default();
    let report = build_report(&events, &settings);
    assert!(!report.sites[0].counts_toward_avg);
    assert!(report.sites[1].counts_toward_avg);
    assert_eq!(report.session.time_spent_seconds, 5 * 60);
}

#[test]
fn totals_and_fleet_lp() {
    let events = vec![payout(2026, 7, 29, 23, 0), payout(2026, 7, 30, 0, 10)];
    let settings = RunSettings::default();
    let report = build_report(&events, &settings);
    assert_eq!(report.session.liquid_isk, 30_000_000);
    assert_eq!(report.sites[0].fleet_lp, 2_000 * 15);
    assert_eq!(report.session.net_lp, 2 * 2_000 * 15);
    assert_eq!(report.hourly.len(), 2);
    assert_eq!(report.hourly[0].hour_start, at(2026, 7, 29, 23, 0));
    assert_eq!(report.hourly[1].hour_start, at(2026, 7, 30, 0, 0));
    assert_eq!(report.hourly[1].sites, 1);
    assert!(report.sites[1].is_break);
    assert_eq!(report.hourly[1].timed_seconds, 0);
    assert_eq!(report.hourly[1].timed_sites, 0);
}

#[test]
fn hour_floor_rounds_down_to_the_hour() {
    assert_eq!(hour_floor(at(2026, 7, 29, 23, 59) + 59), at(2026, 7, 29, 23, 0));
    assert_eq!(hour_floor(-1), -3600);
}

#[test]
fn merge_keeps_all_sites_in_time_order() {
    let a = build_report(&vec![payout(2026, 7, 29, 23, 30)], &RunSettings::default());
    let b = build_report(&vec![payout(2026, 7, 29, 22, 0), payout(2026, 7, 29, 22, 10)], &RunSettings::default());
    let merged = merge_reports(&vec![a, b]);
    let times: Vec<i64> = merged.sites.iter().map(|s| s.occurred_at).collect();
    assert_eq!(times, vec![at(2026, 7, 29, 22, 0), at(2026, 7, 29, 22, 10), at(2026, 7, 29, 23, 30)]);
    assert_eq!(merged.session.sites_ran, 3);
    assert_eq!(merged.session.liquid_isk, 45_000_000);
    assert_eq!(merged.hourly.len(), 2);
}

#[test]
fn merge_of_nothing_is_empty() {
    let merged = merge_reports(&vec![]);
    assert_eq!(merged.session.sites_ran, 0);
    assert!(merged.hourly.is_empty());
}

#[test]
fn hourly_buckets_add_up_to_the_session() {
    let events = vec![
        payout(2026, 7, 29, 22, 10),
        payout(2026, 7, 29, 22, 40),
        payout(2026, 7, 29, 23, 5),
        payout(2026, 7, 30, 1, 15),
        payout(2026, 7, 30, 1, 20),
    ];
    let mut settings = RunSettings::default();
    settings.run_start = Some(at(2026, 7, 29, 22, 0));
    let report = build_report(&events, &settings);
    assert_eq!(report.hourly.len(), 3);
    let sites: u32 = report.hourly.iter().map(|b| b.sites).sum();
    let isk: i64 = report.hourly.iter().map(|b| b.total_isk).sum();
    let lp: i64 = report.hourly.iter().map(|b| b.total_lp).sum();
    let timed: i64 = report.hourly.iter().map(|b| b.timed_seconds).sum();
    let timed_sites: u64 = report.hourly.iter().map(|b| b.timed_sites).sum();
    assert_eq!(sites, report.session.sites_ran);
    assert_eq!(isk, report.session.liquid_isk);
    assert_eq!(lp, report.session.net_lp);
    assert_eq!(timed, report.session.time_spent_seconds);
    assert_eq!(timed_sites, report.session.timed_sites);
    assert_eq!(report.hourly[0].sites, 2);
    assert_eq!(report.hourly[2].sites, 2);
}

#[test]
fn large_totals_that_each_fit_are_reported() {
    let mut big = payout(2026, 7, 29, 22, 10);
    big.amount_isk = 6_000_000_000_000_000_000;
    let mut settings = RunSettings::default();
    settings.lp_per_char = 400_000_000_000_000_000;
    settings.fleet_size = 10;
    let report = try_build_report(&vec![big], &settings).expect("each total fits");
    assert_eq!(report.session.liquid_isk, 6_000_000_000_000_000_000);
    assert_eq!(report.session.net_lp, 4_000_000_000_000_000_000);
    assert_eq!(report.hourly[0].total_isk, 6_000_000_000_000_000_000);
}

#[test]
fn running_total_overflow_is_refused() {
    let mut a = payout(2026, 7, 29, 22, 10);
    a.amount_isk = 6_000_000_000_000_000_000;
    let mut b = payout(2026, 7, 29, 22, 20);
    b.amount_isk = 6_000_000_000_000_000_000;
    assert!(try_build_report(&vec![a.clone(), b.clone()], &RunSettings::default()).is_none());
    b.amount_isk = -6_000_000_000_000_000_000;
    let report = try_build_report(&vec![a, b], &RunSettings::default()).expect("running totals fit");
    assert_eq!(report.session.liquid_isk, 0);
}

#[test]
fn merge_keeps_report_order_for_sites_at_the_same_second() {
    let mut first = payout(2026, 7, 29, 22, 10);
    first.amount_isk = 1;
    let mut second = payout(2026, 7, 29, 22, 10);
    second.amount_isk = 2;
    let early = payout(2026, 7, 29, 22, 0);
    let r1 = build_report(&vec![first], &RunSettings::default());
    let r2 = build_report(&vec![early, second], &RunSettings::default());
    let merged = try_merge_reports(&vec![r1, r2]).expect("totals fit");
    let amounts: Vec<i64> = merged.sites.iter().map(|s| s.amount_isk).collect();
    assert_eq!(amounts, vec![15_000_000, 1, 2]);
}

#[test]
fn merging_one_report_gives_it_back() {
    let events = vec![payout(2026, 7, 29, 22, 10), payout(2026, 7, 29, 22, 40), payout(2026, 7, 29, 23, 5)];
    let mut settings = RunSettings::default();
    settings.run_start = Some(at(2026, 7, 29, 22, 0));
    let report = build_report(&events, &settings);
    let merged = merge_reports(&vec![report.clone()]);
    assert_eq!(merged.sites, report.sites);
    assert_eq!(merged.session, report.session);
    assert_eq!(merged.hourly, report.hourly);
}
