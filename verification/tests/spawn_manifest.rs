use chrono::{TimeZone, Utc};
use incfleetchat::spawn_parse::{pad_us_date, pad_us_datetime, parse_manifest, SpawnDraft};

const SAMPLE: &str = "\
Kundalini Manifest
APP
 — 7/28/2026 5:41 AM
New Null-Sec Incursion: 4MY-AB - Immensea
Region
Immensea
Constellation
4MY-AB
Security Status
-0.1
Sov Holder
Goonswarm Federation [CONDI]
Staging System
F76-8Q
HQ System
PH-NFR
Assault System(s)
X-6WC7
W-FHWJ
Vanguard Systems
RHE7-W
D-BAMJ
JKWP-U
DW-N2S
7/28/2026 5:41 AM
";

#[test]
fn parses_constellation_and_region() {
    let d = parse_manifest(SAMPLE);
    assert_eq!(d.constellation.as_deref(), Some("4MY-AB"));
    assert_eq!(d.region.as_deref(), Some("Immensea"));
    assert_eq!(d.staging_system.as_deref(), Some("F76-8Q"));
    assert_eq!(d.hq_system.as_deref(), Some("PH-NFR"));
    assert_eq!(d.assault_systems, vec!["X-6WC7", "W-FHWJ"]);
    assert_eq!(d.vanguard_systems, vec!["RHE7-W", "D-BAMJ", "JKWP-U", "DW-N2S"]);
    assert!(d.announced_at.is_some());
}

#[test]
fn manifest_other_fields() {
    let d = parse_manifest(SAMPLE);
    assert_eq!(d.title.as_deref(), Some("Kundalini Manifest"));
    assert_eq!(d.security_status.as_deref(), Some("-0.1"));
    assert_eq!(d.sov_holder.as_deref(), Some("Goonswarm Federation [CONDI]"));
    assert_eq!(d.announced_at, Some(Utc.with_ymd_and_hms(2026, 7, 28, 5, 41, 0).unwrap().timestamp()));
}

#[test]
fn announcement_line_alone_names_constellation_and_region() {
    let d = parse_manifest("New High-Sec Incursion: Ahbazon - Genesis\n");
    assert_eq!(d.constellation.as_deref(), Some("Ahbazon"));
    assert_eq!(d.region.as_deref(), Some("Genesis"));
    assert_eq!(d.title, None);
    let e = parse_manifest("Region\nConstellation\n");
    assert_eq!(e.region.as_deref(), Some("Constellation"));
    assert_eq!(e.constellation, None);
    assert_eq!(e.title, None);
}

#[test]
fn pads_us_dates() {
    assert_eq!(pad_us_date("7/8/2026").as_deref(), Some("07/08/2026"));
    assert_eq!(pad_us_date("12/31/2026").as_deref(), Some("12/31/2026"));
    assert_eq!(pad_us_date("7/x/2026"), None);
    assert_eq!(pad_us_date("7/8"), None);
    assert_eq!(pad_us_datetime("7/28/2026 5:41 AM").as_deref(), Some("07/28/2026 05:41 AM"));
    assert_eq!(pad_us_datetime("7/28/2026 17:05").as_deref(), Some("07/28/2026 17:05"));
    assert_eq!(pad_us_datetime("7/28/2026"), None);
}

#[test]
fn blank_manifest_gives_the_empty_draft() {
    assert_eq!(parse_manifest("  \n\u{feff}\n\t \r\n"), SpawnDraft::default());
    assert_eq!(parse_manifest(""), SpawnDraft::default());
}
