use chrono::{TimeZone, Utc};
use sha2::{Digest, Sha256};
use incfleetchat::board::{build_board, clear_ready, clear_site, mark_ran};
use incfleetchat::idset::IdSet;
use incfleetchat::parse::parse_site_candidates;
use incfleetchat::site_id::site_id;
use incfleetchat::types::{BoardStatus, SiteCandidate, SitePhase};

const SAMPLE: &str = "  Listener:        Estemaire Saissore Orlenard\n\
[ 2026.08.01 19:42:09 ] Hamilton Norris > 1\n\
[ 2026.08.01 19:43:10 ] Hamilton Norris > 1\n\
[ 2026.08.01 19:45:00 ] Hamilton Norris > 2\n\
[ 2026.08.01 19:52:00 ] Hamilton Norris > 1\n";

fn at(h: u32, m: u32) -> i64 {
    Utc.with_ymd_and_hms(2026, 8, 1, h, m, 0).unwrap().timestamp()
}

fn candidate(tag: &str, hour: u32, minute: u32, ordinal: u32) -> SiteCandidate {
    SiteCandidate { speaker: "Pilot".into(), posted_at: at(hour, minute), tag: tag.into(), line_ordinal: ordinal }
}

fn ids(list: &[&str]) -> IdSet {
    let mut s = IdSet::new();
    for id in list {
        s.insert(id);
    }
    s
}

#[test]
fn active_overdue_and_ready_phases() {
    let log = "fleet.log";
    let c_active = candidate("1", 12, 0, 0);
    let c_over = candidate("2", 11, 0, 1);
    let c_ready = candidate("3", 11, 0, 2);
    let now = at(11, 30);
    let id_ready = site_id(log, &c_ready);
    let ran = ids(&[&id_ready]);
    let board = build_board(
        BoardStatus::Watching { character: "X".into(), log_name: log.into() },
        log,
        &vec![c_active, c_over, c_ready],
        &ran,
        &IdSet::new(),
        now,
    );
    assert_eq!(board.sites.len(), 3);
    let by_tag = |t: &str| board.sites.iter().find(|s| s.tag == t).unwrap();
    assert_eq!(by_tag("1").phase, SitePhase::Active);
    assert_eq!(by_tag("2").phase, SitePhase::Overdue);
    assert!(!by_tag("2").clearable);
    assert_eq!(by_tag("3").phase, SitePhase::Ready);
    assert!(by_tag("3").clearable);
    assert_eq!(board.ready_count, 1);
    assert_eq!(board.sites[0].expires_at < board.sites[2].expires_at, true);
}

#[test]
fn mark_ran_then_clear_site_only_when_ready() {
    let log = "fleet.log";
    let c = candidate("a", 11, 0, 0);
    let id = site_id(log, &c);
    let now = at(11, 30);
    let mut ran = IdSet::new();
    let mut cleared = IdSet::new();
    let mut board = build_board(BoardStatus::NoCharacter, log, &vec![c], &ran, &cleared, now);
    assert_eq!(board.sites[0].phase, SitePhase::Overdue);

    clear_site(&mut board, &id, &mut cleared, now);
    assert_eq!(board.sites.len(), 1);

    mark_ran(&mut board, &id, &mut ran, now);
    assert_eq!(board.sites[0].phase, SitePhase::Ready);
    assert_eq!(board.ready_count, 1);

    clear_site(&mut board, &id, &mut cleared, now);
    assert!(board.sites.is_empty());
    assert!(cleared.contains(&id));
}

#[test]
fn mark_ran_before_expiry_keeps_site_active() {
    let log = "fleet.log";
    let c = candidate("b", 11, 20, 0);
    let id = site_id(log, &c);
    let now = at(11, 30);
    let mut ran = IdSet::new();
    let mut cleared = IdSet::new();
    let mut board = build_board(BoardStatus::NoCharacter, log, &vec![c], &ran, &cleared, now);
    mark_ran(&mut board, &id, &mut ran, now);
    assert!(board.sites[0].ran);
    assert_eq!(board.sites[0].phase, SitePhase::Active);
    assert!(!board.sites[0].clearable);
    clear_site(&mut board, &id, &mut cleared, now);
    assert_eq!(board.sites.len(), 1);
    assert!(!cleared.contains(&id));
    assert!(ran.contains(&id));
}

#[test]
fn clear_ready_bulk() {
    let log = "fleet.log";
    let c1 = candidate("1", 11, 0, 0);
    let c2 = candidate("2", 11, 5, 1);
    let c3 = candidate("3", 12, 0, 2);
    let id1 = site_id(log, &c1);
    let id2 = site_id(log, &c2);
    let now = at(11, 30);
    let ran = ids(&[&id1, &id2]);
    let mut cleared = IdSet::new();
    let mut board = build_board(BoardStatus::NoCharacter, log, &vec![c1, c2, c3], &ran, &cleared, now);
    assert_eq!(board.ready_count, 2);
    clear_ready(&mut board, &mut cleared, now);
    assert_eq!(board.sites.len(), 1);
    assert_eq!(board.sites[0].tag, "3");
    assert_eq!(board.ready_count, 0);
    assert!(cleared.contains(&id1) && cleared.contains(&id2));
}

#[test]
fn cleared_ids_hidden_on_rebuild() {
    let log = "fleet.log";
    let c = candidate("1", 11, 0, 0);
    let id = site_id(log, &c);
    let now = at(11, 30);
    let ran = ids(&[&id]);
    let cleared = ids(&[&id]);
    let board = build_board(BoardStatus::NoCharacter, log, &vec![c], &ran, &cleared, now);
    assert!(board.sites.is_empty());
}

#[test]
fn expiry_is_twenty_minutes_after_post() {
    let board = build_board(BoardStatus::NoCharacter, "l", &vec![candidate("7", 10, 0, 0)], &IdSet::new(), &IdSet::new(), at(10, 5));
    assert_eq!(board.sites[0].expires_at - board.sites[0].posted_at, 20 * 60);
    assert_eq!(board.sites[0].phase, SitePhase::Active);
    assert_eq!(board.updated_at, at(10, 5));
}

#[test]
fn site_id_stable_across_reparses() {
    let a = parse_site_candidates(SAMPLE);
    let b = parse_site_candidates(SAMPLE);
    let log = "Fleet_20260801_182319_2112707019.txt";
    let ids_a: Vec<_> = a.iter().map(|c| site_id(log, c)).collect();
    let ids_b: Vec<_> = b.iter().map(|c| site_id(log, c)).collect();
    assert_eq!(ids_a, ids_b);
}

#[test]
fn stacked_same_tag_get_distinct_ids() {
    let sites = parse_site_candidates(SAMPLE);
    let log = "fleet.log";
    let ones: Vec<_> = sites.iter().filter(|s| s.tag == "1").map(|c| site_id(log, c)).collect();
    assert_eq!(ones.len(), 3);
    assert_ne!(ones[0], ones[1]);
    assert_ne!(ones[1], ones[2]);
}

#[test]
fn different_logs_differ() {
    let c = SiteCandidate {
        speaker: "A".into(),
        posted_at: Utc.with_ymd_and_hms(2026, 1, 1, 0, 0, 0).unwrap().timestamp(),
        tag: "1".into(),
        line_ordinal: 0,
    };
    assert_ne!(site_id("log-a", &c), site_id("log-b", &c));
}

#[test]
fn site_id_is_hex_sha256_of_its_fields() {
    let c = SiteCandidate { speaker: "A".into(), posted_at: 0, tag: "1".into(), line_ordinal: 12 };
    let id = site_id("log", &c);
    let expected = hex::encode(Sha256::digest("log|1970-01-01T00:00:00+00:00|A|1|12".as_bytes()));
    assert_eq!(id, expected);
    assert_eq!(id.len(), 64);
}

#[test]
fn id_set_insert_is_idempotent() {
    let mut s = IdSet::new();
    s.insert("x");
    s.insert("x");
    assert_eq!(s.to_vec(), vec!["x".to_string()]);
    assert!(!s.contains("y"));
}
