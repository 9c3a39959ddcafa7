use chrono::{TimeZone, Utc};
use incfleetchat::vanguard_payouts::{lookup_payout, SpaceBand};
use incfleetchat::wallet_parse::{extract_wallet_fc_hint, parse_isk_amount, parse_wallet_journal};

const SAMPLE: &str = "\
2026.07.29 23:42\tCorporate Reward Payout\t15,000,000 ISK\t189,968,896 ISK\tCONCORD rewarded tomar norris for services performed.\n\
2026.07.29 23:08\tCorporate Reward Payout\t15,000,000 ISK\t189,218,896 ISK\tCONCORD rewarded tomar norris for services performed.\n\
2026.07.29 22:00\tAgent Mission Reward\t1,000,000 ISK\t100 ISK\tnoise\n\
2026.07.29 21:00\tCorporate Reward Payout\t10,395,000 ISK\t100 ISK\twrong amount\n";

#[test]
fn keeps_matching_payouts_sorted() {
    let r = parse_wallet_journal(SAMPLE, 15_000_000);
    assert_eq!(r.events.len(), 2);
    assert_eq!(r.events[0].occurred_at, Utc.with_ymd_and_hms(2026, 7, 29, 23, 8, 0).unwrap().timestamp());
    assert_eq!(r.events[1].occurred_at, Utc.with_ymd_and_hms(2026, 7, 29, 23, 42, 0).unwrap().timestamp());
    assert_eq!(r.ignored_lines, 2);
    assert_eq!(r.events[0].ref_type, "Corporate Reward Payout");
    assert_eq!(r.events[0].amount_isk, 15_000_000);
}

#[test]
fn drops_duplicates() {
    let text = format!("{SAMPLE}2026.07.29 23:08\tCorporate Reward Payout\t15,000,000 ISK\t0 ISK\tdup\n");
    let r = parse_wallet_journal(&text, 15_000_000);
    assert_eq!(r.events.len(), 2);
    assert_eq!(r.duplicates_dropped, 1);
}

#[test]
fn extracts_fc_hint_from_concord_rewarded_description() {
    assert_eq!(
        extract_wallet_fc_hint("CONCORD rewarded tomar norris for services performed."),
        Some("tomar norris".to_string())
    );
}

#[test]
fn extracts_fc_hint_returns_none_for_unrelated_description() {
    assert_eq!(extract_wallet_fc_hint("noise"), None);
    assert_eq!(extract_wallet_fc_hint(""), None);
}

#[test]
fn isk_amounts_read_with_separators_and_suffix() {
    assert_eq!(parse_isk_amount("15,000,000 ISK"), Some(15_000_000));
    assert_eq!(parse_isk_amount("-1,234 ISK"), Some(-1234));
    assert_eq!(parse_isk_amount("lots"), None);
}

#[test]
fn low_null_at_cap() {
    let t = lookup_payout(SpaceBand::LowNull, 15);
    assert_eq!(t.isk, 15_000_000);
    assert_eq!(t.lp_per_char, 2_000);
}

#[test]
fn low_null_sixteen() {
    let t = lookup_payout(SpaceBand::LowNull, 16);
    assert_eq!(t.isk, 13_875_000);
    assert_eq!(t.lp_per_char, 1_850);
}

#[test]
fn highsec_at_cap() {
    let t = lookup_payout(SpaceBand::Highsec, 10);
    assert_eq!(t.isk, 10_395_000);
    assert_eq!(t.lp_per_char, 1_400);
}

#[test]
fn highsec_eleven() {
    let t = lookup_payout(SpaceBand::Highsec, 11);
    assert_eq!(t.isk, 9_615_375);
    assert_eq!(t.lp_per_char, 1_295);
}

#[test]
fn bigger_fleets_never_pay_more_per_site() {
    for band in [SpaceBand::LowNull, SpaceBand::Highsec] {
        let mut prev = lookup_payout(band, 1);
        for n in 2..60 {
            let t = lookup_payout(band, n);
            assert!(t.isk <= prev.isk && t.lp_per_char <= prev.lp_per_char);
            prev = t;
        }
    }
}
