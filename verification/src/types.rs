//! Overlay board types: sites posted in fleet chat and the board built from them.

use vstd::prelude::*;

verus! {

/// Minutes from a tag's post until its site timer expires.
pub const TIMER_MINUTES: i64 = 20;

/// Where a site stands relative to expiry and Ran.
#[derive(Debug, Clone, Copy, PartialEq, Eq, Structural)]
pub enum SitePhase {
    Active,
    Overdue,
    Ready,
}

/// One board row. Times are UTC seconds since the epoch.
#[derive(Debug, Clone, PartialEq, Eq)]
pub struct SiteRow {
    pub id: String,
    pub tag: String,
    pub speaker: String,
    pub posted_at: i64,
    pub expires_at: i64,
    pub ran: bool,
    pub phase: SitePhase,
    pub clearable: bool,
}

pub ghost struct SiteRowView {
    pub id: Seq<char>,
    pub tag: Seq<char>,
    pub speaker: Seq<char>,
    pub posted_at: int,
    pub expires_at: int,
    pub ran: bool,
    pub phase: SitePhase,
    pub clearable: bool,
}

impl View for SiteRow {
    type V = SiteRowView;

    open spec fn view(&self) -> SiteRowView {
        SiteRowView {
            id: self.id@,
            tag: self.tag@,
            speaker: self.speaker@,
            posted_at: self.posted_at as int,
            expires_at: self.expires_at as int,
            ran: self.ran,
            phase: self.phase,
            clearable: self.clearable,
        }
    }
}

pub open spec fn rows_view(s: Seq<SiteRow>) -> Seq<SiteRowView> {
    s.map_values(|r: SiteRow| r@)
}

#[derive(Debug, Clone, PartialEq, Eq)]
pub enum BoardStatus {
    Watching { character: String, log_name: String },
    NoCharacter,
    WaitingForLog { character: String },
    Error { message: String },
}

#[derive(Debug, Clone, PartialEq, Eq)]
pub struct Board {
    pub status: BoardStatus,
    pub sites: Vec<SiteRow>,
    pub ready_count: u32,
    pub updated_at: i64,
}

/// Durable overlay prefs: Listener, chatlogs directory, always-on-top.
#[derive(Debug, Clone, PartialEq, Eq)]
pub struct OverlaySettings {
    pub character: Option<String>,
    pub chatlogs_dir: Option<String>,
    pub always_on_top: bool,
    pub tracking_pip_enabled: bool,
}

impl Default for OverlaySettings {
    fn default() -> (r: Self)
        ensures
            r.character is None,
            r.chatlogs_dir is None,
            !r.always_on_top,
            r.tracking_pip_enabled,
    {
        OverlaySettings {
            character: None,
            chatlogs_dir: None,
            always_on_top: false,
            tracking_pip_enabled: true,
        }
    }
}

/// Durable Tools prefs: gamelogs directory, FC character, ammo fit.
#[derive(Debug, Clone, PartialEq, Eq)]
pub struct ToolsSettings {
    pub gamelogs_dir: Option<String>,
    pub fc_character: Option<String>,
    pub ammo_launchers: i64,
    pub ammo_per_launcher: i64,
}

impl Default for ToolsSettings {
    fn default() -> (r: Self)
        ensures
            r.gamelogs_dir is None,
            r.fc_character is None,
            r.ammo_launchers == 6,
            r.ammo_per_launcher == 26,
    {
        ToolsSettings {
            gamelogs_dir: None,
            fc_character: None,
            ammo_launchers: 6,
            ammo_per_launcher: 26,
        }
    }
}

/// The one settings row: overlay and Tools prefs together.
#[derive(Debug, Clone, PartialEq, Eq)]
pub struct AppSettings {
    pub character: Option<String>,
    pub chatlogs_dir: Option<String>,
    pub always_on_top: bool,
    pub gamelogs_dir: Option<String>,
    pub fc_character: Option<String>,
    pub ammo_launchers: i64,
    pub ammo_per_launcher: i64,
}

impl Default for AppSettings {
    fn default() -> (r: Self)
        ensures
            r.character is None,
            r.chatlogs_dir is None,
            !r.always_on_top,
            r.gamelogs_dir is None,
            r.fc_character is None,
            r.ammo_launchers == 6,
            r.ammo_per_launcher == 26,
    {
        AppSettings {
            character: None,
            chatlogs_dir: None,
            always_on_top: false,
            gamelogs_dir: None,
            fc_character: None,
            ammo_launchers: 6,
            ammo_per_launcher: 26,
        }
    }
}

/// A parsed tag post, before Ran merge and phase computation.
#[derive(Debug, Clone, PartialEq, Eq)]
pub struct SiteCandidate {
    pub speaker: String,
    pub posted_at: i64,
    pub tag: String,
    pub line_ordinal: u32,
}

pub ghost struct SiteCandidateView {
    pub speaker: Seq<char>,
    pub posted_at: i64,
    pub tag: Seq<char>,
    pub line_ordinal: u32,
}

impl View for SiteCandidate {
    type V = SiteCandidateView;

    open spec fn view(&self) -> SiteCandidateView {
        SiteCandidateView {
            speaker: self.speaker@,
            posted_at: self.posted_at,
            tag: self.tag@,
            line_ordinal: self.line_ordinal,
        }
    }
}

/// Incursion site chosen from the overlay fleet-warp prompt.
#[derive(Debug, Clone, Copy, PartialEq, Eq, Structural)]
pub enum SessionTrackingSiteKind {
    OtaHacking,
    Nco,
    NmcMining,
}

/// Operator action recorded from the overlay session-tracking popup.
#[derive(Debug, Clone, Copy, PartialEq, Eq, Structural)]
pub enum SessionTrackingEventKind {
    FleetWarp,
    BreakStart,
}

#[derive(Debug, Clone, PartialEq, Eq)]
pub struct SessionTrackingEvent {
    pub id: i64,
    pub fleet_log_id: String,
    pub event_kind: SessionTrackingEventKind,
    pub site_kind: Option<SessionTrackingSiteKind>,
    pub overlay_site_id: Option<String>,
    pub occurred_at: i64,
}

#[derive(Debug, Clone, PartialEq, Eq)]
pub struct RecordSessionTrackingInput {
    pub event_kind: SessionTrackingEventKind,
    pub site_kind: Option<SessionTrackingSiteKind>,
    pub overlay_site_id: Option<String>,
}

} // verus!
