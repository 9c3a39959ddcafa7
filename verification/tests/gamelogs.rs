use chrono::{TimeZone, Utc};
use incfleetchat::gamelog_scan::{newest_first, scan_gamelog_files, GamelogFile};
use incfleetchat::gamelog_parse::{parse_gamelog_events, parse_listener, parse_session_started, GamelogEventKind};
use incfleetchat::gamelog_watch::{
    is_gamelog, latest_following_warp_at, path_in_gamelogs, poll_following_warp, WarpPoll, WarpWatchCursor,
};
use incfleetchat::resolve::{
    fleet_log_id, is_fleet_log, list_characters, resolve_active_fleet_log, resolve_active_gamelog, LogFile,
};
use incfleetchat::state::path_in_chatlogs;

const SAMPLE: &str = "------------------------------------------------------------\n\
  Gamelog\n\
  Listener: Chelien Alabel Maricadie\n\
  Session Started: 2026.08.02 18:20:40\n\
------------------------------------------------------------\n\
[ 2026.08.02 18:20:41 ] (notify) Fleet invitation accepted.\n\
[ 2026.08.02 18:21:05 ] (notify) Following Hamilton Norris in warp\n\
[ 2026.08.02 18:22:10 ] (notify) Regrouping to Hamilton Norris\n\
[ 2026.08.02 18:23:00 ] (combat) <b>312</b> to Sansha's Nation Commander - Scourge Rage Heavy Missile - Hits\n\
[ 2026.08.02 18:24:10 ] (notify) Scourge Rage Heavy Missile has run out of charges\n\
[ 2026.08.02 18:24:20 ] (notify) Loading the Scourge Rage Heavy Missile into the Heavy Missile Launcher; this will take approximately 10 seconds.\n\
[ 2026.08.02 18:25:00 ] (combat) <b>120</b> from Sansha's Nation Commander - Glances Off\n\
[ 2026.08.02 18:26:00 ] (question) Is the site clear?\n";

fn ts(h: u32, m: u32, s: u32) -> i64 {
    Utc.with_ymd_and_hms(2026, 8, 2, h, m, s).unwrap().timestamp()
}

fn gamelog_body(listener: &str, extra: &str) -> String {
    format!(
        "---------------------------------------------------------------\n  Gamelog\n  Listener:        {listener}\n  Session Started: 2026.08.02 18:00:00\n---------------------------------------------------------------\n\n{extra}"
    )
}

fn fleet_body(listener: &str) -> String {
    format!(
        "---------------------------------------------------------------\n          Listener:        {listener}\n        ---------------------------------------------------------------\n\n[ 2026.08.01 12:00:00 ] Pilot > 1\n"
    )
}

fn file(path: &str, text: Option<String>, modified: i128) -> LogFile {
    LogFile { path: path.to_string(), text, modified }
}

#[test]
fn parses_listener_and_session_started() {
    assert_eq!(parse_listener(SAMPLE).as_deref(), Some("Chelien Alabel Maricadie"));
    assert_eq!(parse_session_started(SAMPLE), Some(ts(18, 20, 40)));
}

#[test]
fn classifies_warp_regroup_combat_reload_events() {
    let events = parse_gamelog_events(SAMPLE);
    let kinds: Vec<GamelogEventKind> = events.iter().map(|e| e.kind).collect();
    assert_eq!(
        kinds,
        vec![
            GamelogEventKind::FollowingWarp,
            GamelogEventKind::Regrouping,
            GamelogEventKind::CombatHit,
            GamelogEventKind::Reload,
            GamelogEventKind::CombatAny,
        ]
    );
    assert_eq!(events[0].occurred_at, ts(18, 21, 5));
    assert_eq!(events[3].occurred_at, ts(18, 24, 20));
    assert_eq!(events.iter().filter(|e| e.kind == GamelogEventKind::Reload).count(), 1);
}

#[test]
fn ignores_question_lines() {
    let events = parse_gamelog_events(SAMPLE);
    assert!(!events.iter().any(|e| e.raw_hint.contains("question")));
    assert!(!events.iter().any(|e| e.raw_hint.contains("Is the site clear")));
    assert_eq!(events.len(), 5);
}

#[test]
fn session_started_is_case_insensitive() {
    assert_eq!(parse_session_started("  SESSION STARTED: 2026.08.02 18:00:00\n"), Some(ts(18, 0, 0)));
    assert_eq!(parse_session_started("no header\n"), None);
}

#[test]
fn latest_following_warp_reads_notify_line() {
    let text = gamelog_body("Alpha Pilot", "[ 2026.08.02 18:21:05 ] (notify) Following Fleet Commander in warp\n");
    assert_eq!(latest_following_warp_at(&text), Some(ts(18, 21, 5)));
}

#[test]
fn latest_following_warp_takes_the_latest() {
    let text = gamelog_body(
        "Alpha Pilot",
        "[ 2026.08.02 18:30:00 ] (notify) Following X in warp\n[ 2026.08.02 18:21:05 ] (notify) Following X in warp\n",
    );
    assert_eq!(latest_following_warp_at(&text), Some(ts(18, 30, 0)));
    assert_eq!(latest_following_warp_at(&gamelog_body("A", "")), None);
}

#[test]
fn first_poll_baselines_without_prompt() {
    let mut cursor = WarpWatchCursor::default();
    let path = "20260802_180000.txt".to_string();
    let t = ts(18, 21, 5);
    assert_eq!(poll_following_warp(&mut cursor, Some(path.clone()), Some(t)), WarpPoll::Quiet);
    assert_eq!(cursor.last_warp_at, Some(t));
}

#[test]
fn later_warp_prompts() {
    let mut cursor = WarpWatchCursor::default();
    let path = "20260802_180000.txt".to_string();
    let t0 = ts(18, 21, 5);
    let t1 = ts(18, 30, 0);
    poll_following_warp(&mut cursor, Some(path.clone()), Some(t0));
    assert_eq!(poll_following_warp(&mut cursor, Some(path), Some(t1)), WarpPoll::NewWarp);
}

#[test]
fn new_file_does_not_prompt_for_existing_warps() {
    let mut cursor = WarpWatchCursor::default();
    let first = "20260802_180000.txt".to_string();
    let second = "20260802_190000.txt".to_string();
    poll_following_warp(&mut cursor, Some(first), Some(ts(18, 21, 5)));
    assert_eq!(poll_following_warp(&mut cursor, Some(second), Some(ts(19, 5, 0))), WarpPoll::Quiet);
}

#[test]
fn same_warp_twice_prompts_once_and_no_log_resets() {
    let mut cursor = WarpWatchCursor::default();
    let p = "g.txt".to_string();
    poll_following_warp(&mut cursor, Some(p.clone()), None);
    assert_eq!(poll_following_warp(&mut cursor, Some(p.clone()), Some(ts(18, 0, 0))), WarpPoll::NewWarp);
    assert_eq!(poll_following_warp(&mut cursor, Some(p.clone()), Some(ts(18, 0, 0))), WarpPoll::Quiet);
    assert_eq!(poll_following_warp(&mut cursor, None, Some(ts(18, 5, 0))), WarpPoll::Quiet);
    assert_eq!(cursor, WarpWatchCursor::default());
}

#[test]
fn resolve_picks_newest_matching_listener() {
    let files = vec![
        file("logs/20260802_100000.txt", Some(gamelog_body("Alpha Pilot", "")), 0),
        file("logs/20260802_110000.txt", Some(gamelog_body("Alpha Pilot", "")), 0),
        file("logs/20260802_120000.txt", Some(gamelog_body("Other Pilot", "")), 0),
        file("logs/20260802_130000.log", Some(gamelog_body("Alpha Pilot", "")), 0),
        file("logs/20260802_140000.txt", None, 0),
    ];
    let path = resolve_active_gamelog(&files, "alpha pilot").expect("should find");
    assert!(path.contains("110000"));
    assert_eq!(resolve_active_gamelog(&files, "Missing"), None);
}

#[test]
fn resolves_listener_newest_among_many() {
    let files = vec![
        file("c/Fleet_20260801_100000_1.txt", Some(fleet_body("Alpha Pilot")), 100),
        file("c/Fleet_20260801_110000_1.txt", Some(fleet_body("Alpha Pilot")), 200),
        file("c/Fleet_20260801_110000_2.txt", Some(fleet_body("Other Pilot")), 300),
        file("c/Local_20260801_110000_2.txt", Some(fleet_body("Alpha Pilot")), 400),
    ];
    let path = resolve_active_fleet_log(&files, "Alpha Pilot").expect("should find");
    assert!(path.contains("110000"));
    assert_eq!(resolve_active_fleet_log(&files, "Missing"), None);
}

#[test]
fn list_characters_scans_headers() {
    let files = vec![
        file("c/Fleet_a_1.txt", Some(fleet_body("Estemaire Saissore Orlenard")), 0),
        file("c/Fleet_b_2.txt", Some(fleet_body("Other Pilot")), 0),
        file("c/Fleet_c_1.txt", Some(fleet_body("Estemaire Saissore Orlenard")), 0),
        file("c/Corp_d_1.txt", Some(fleet_body("Zed")), 0),
    ];
    let names = list_characters(&files);
    assert_eq!(names, vec!["Estemaire Saissore Orlenard".to_string(), "Other Pilot".to_string()]);
}

#[test]
fn log_file_names() {
    assert!(is_fleet_log("/x/Fleet_1.txt"));
    assert!(!is_fleet_log("/x/fleet_1.txt"));
    assert!(!is_fleet_log("/x/Fleet_1.log"));
    assert_eq!(fleet_log_id("/x/Fleet_20260801.txt"), "Fleet_20260801.txt");
    assert_eq!(fleet_log_id("/"), "unknown");
    assert!(is_gamelog("/g/20260802_180000.TXT"));
    assert!(!is_gamelog("/g/20260802_180000"));
}

#[test]
fn changed_paths_that_matter() {
    assert!(path_in_gamelogs("/eve/Gamelogs", "/eve/Gamelogs/a.log"));
    assert!(path_in_gamelogs("/eve/Gamelogs", "/tmp/b.txt"));
    assert!(!path_in_gamelogs("/eve/Gamelogs", "/eve/Gamelogsx/a.log"));
    assert!(path_in_chatlogs("/eve/Chatlogs", "/eve/Chatlogs/Local_1.txt"));
    assert!(path_in_chatlogs("/eve/Chatlogs", "/tmp/Fleet_2.txt"));
    assert!(!path_in_chatlogs("/eve/Chatlogs", "/tmp/Local_2.txt"));
}

fn scan_body(listener: &str, session: &str) -> String {
    format!(
        "---------------------------------------------------------------\n  Gamelog\n  Listener:        {listener}\n  Session Started: {session}\n---------------------------------------------------------------\n\n[ {session} ] (notify) Following Fleet Commander in warp\n"
    )
}

fn gamelog_file(path: &str, text: Result<String, String>, modified: Option<i128>) -> GamelogFile {
    GamelogFile { path: path.to_string(), text, modified }
}

#[test]
fn scan_includes_only_files_overlapping_wallet_window() {
    let in_window = "/logs/Gamelogs/20260802_180000.txt";
    let files = vec![
        gamelog_file(
            "/logs/Gamelogs/20260701_120000.txt",
            Ok(scan_body("Pilot Too Old", "2026.07.01 12:00:00")),
            Some(100),
        ),
        gamelog_file(in_window, Ok(scan_body("Pilot In Window", "2026.08.02 18:00:00")), Some(160)),
    ];
    let wallet_start = ts(19, 0, 0);
    let wallet_end = ts(22, 0, 0);
    let result = scan_gamelog_files(files, &vec![], wallet_start - 86_400, wallet_end);
    assert_eq!(result.logs.len(), 1, "diagnostics: {:?}", result.diagnostics);
    assert_eq!(result.logs[0].listener, "Pilot In Window");
    assert_eq!(result.logs[0].path, in_window);
    assert!(!result.logs[0].events.is_empty());
    assert!(result.diagnostics.is_empty());
}

#[test]
fn scan_reports_unreadable_and_headerless_files_after_listing_errors() {
    let files = vec![
        gamelog_file("/g/a.txt", Err("denied".to_string()), Some(3)),
        gamelog_file("/g/b.txt", Ok("no header here\n".to_string()), Some(2)),
        gamelog_file(
            "/g/c.txt",
            Ok("  Session Started: 2026.08.02 20:00:00\n".to_string()),
            Some(1),
        ),
    ];
    let result = scan_gamelog_files(files, &vec!["gone".to_string()], ts(19, 0, 0), ts(22, 0, 0));
    assert!(result.logs.is_empty());
    assert_eq!(
        result.diagnostics,
        vec![
            "Failed to read directory entry: gone".to_string(),
            "Skipped unreadable gamelog /g/a.txt: denied".to_string(),
            "Skipped gamelog without Session Started: /g/b.txt".to_string(),
            "Skipped gamelog without Listener: /g/c.txt".to_string(),
        ]
    );
}

#[test]
fn scan_keeps_sessions_up_to_five_minutes_past_wallet_end() {
    let files = vec![
        gamelog_file("/g/late.txt", Ok(scan_body("Late", "2026.08.02 22:05:00")), Some(1)),
        gamelog_file("/g/later.txt", Ok(scan_body("Later", "2026.08.02 22:05:01")), Some(2)),
    ];
    let result = scan_gamelog_files(files, &vec![], ts(19, 0, 0), ts(22, 0, 0));
    assert_eq!(result.logs.len(), 1);
    assert_eq!(result.logs[0].listener, "Late");
}

#[test]
fn newest_first_orders_by_time_then_path_and_untimed_last() {
    let files = vec![
        gamelog_file("/g/a.txt", Ok(String::new()), None),
        gamelog_file("/g/b.txt", Ok(String::new()), Some(5)),
        gamelog_file("/g/c.txt", Ok(String::new()), Some(9)),
        gamelog_file("/g/d.txt", Ok(String::new()), Some(5)),
        gamelog_file("/g/e.txt", Ok(String::new()), None),
    ];
    let order: Vec<String> = newest_first(files).into_iter().map(|f| f.path).collect();
    assert_eq!(order, vec!["/g/c.txt", "/g/d.txt", "/g/b.txt", "/g/e.txt", "/g/a.txt"]);
}

#[test]
fn scan_keeps_each_qualifying_file_whatever_the_listing_order() {
    let make = || {
        vec![
            gamelog_file("/g/b.txt", Ok(scan_body("Bee", "2026.08.02 20:00:00")), Some(1)),
            gamelog_file("/g/a.txt", Ok(scan_body("Ay", "2026.08.02 21:00:00")), Some(2)),
            gamelog_file("/g/c.txt", Ok(scan_body("Sea", "2026.07.02 21:00:00")), Some(3)),
        ]
    };
    let mut reversed = make();
    reversed.reverse();
    let one = scan_gamelog_files(make(), &vec![], ts(19, 0, 0), ts(22, 0, 0));
    let two = scan_gamelog_files(reversed, &vec![], ts(19, 0, 0), ts(22, 0, 0));
    let names: Vec<&str> = one.logs.iter().map(|l| l.listener.as_str()).collect();
    assert_eq!(names, vec!["Ay", "Bee"]);
    assert_eq!(one.logs, two.logs);
}

#[test]
fn same_path_spelled_differently_is_the_same_gamelog() {
    let mut cursor = WarpWatchCursor::default();
    poll_following_warp(&mut cursor, Some("logs//Gamelogs/g.txt".to_string()), Some(ts(18, 0, 0)));
    assert_eq!(
        poll_following_warp(&mut cursor, Some("logs/Gamelogs/g.txt".to_string()), Some(ts(18, 5, 0))),
        WarpPoll::NewWarp
    );
    assert_eq!(cursor.path.as_deref(), Some("logs//Gamelogs/g.txt"));
    assert_eq!(
        poll_following_warp(&mut cursor, Some("logs/Gamelogs/other.txt".to_string()), Some(ts(18, 9, 0))),
        WarpPoll::Quiet
    );
}
