//! The overlay's live state and the decisions of a board refresh.
//!
//! A refresh alternates with file work that the caller does: it first asks
//! for the active Fleet chatlog of the character in a directory, then for
//! that log's site candidates.

use vstd::prelude::*;
use crate::board::{build_board, board_rows};
use crate::clock::{valid_ts, MAX_TS, MIN_TS};
use crate::idset::IdSet;
use crate::paths::{path_starts_with, starts_with_path};
use crate::resolve::{fleet_log_file, fleet_log_id, is_fleet_log, log_id_of};
use crate::types::{Board, BoardStatus, OverlaySettings, SiteCandidate, TIMER_MINUTES};

verus! {

/// A change under the Chatlogs directory, or to any `Fleet_*.txt` file.
pub fn path_in_chatlogs(chatlogs: &str, changed: &str) -> (r: bool)
    ensures
        r == (path_starts_with(changed@, chatlogs@) || fleet_log_file(changed@)),
{
    starts_with_path(changed, chatlogs) || is_fleet_log(changed)
}

/// Every candidate's post time, and the end of its timer, are times that
/// `chrono` can hold.
pub open spec fn candidates_in_range_spec(c: Seq<SiteCandidate>) -> bool {
    forall|i: int|
        0 <= i < c.len() ==> valid_ts((#[trigger] c[i]).posted_at as int) && valid_ts(
            c[i].posted_at + TIMER_MINUTES * 60,
        )
}

pub fn candidates_in_range(c: &Vec<SiteCandidate>) -> (r: bool)
    ensures
        r == candidates_in_range_spec(c@),
{
    let mut i: usize = 0;
    while i < c.len()
        invariant
            0 <= i <= c@.len(),
            forall|j: int|
                0 <= j < i ==> valid_ts((#[trigger] c@[j]).posted_at as int) && valid_ts(
                    c@[j].posted_at + TIMER_MINUTES * 60,
                ),
        decreases c@.len() - i,
    {
        let t = c[i].posted_at;
        if t < MIN_TS || t > MAX_TS || t > MAX_TS - TIMER_MINUTES * 60 {
            return false;
        }
        i = i + 1;
    }
    true
}

fn empty_board_exec(status: BoardStatus, now: i64) -> (r: Board)
    ensures
        r.status == status,
        r.sites@.len() == 0,
        r.ready_count == 0,
        r.updated_at == now,
{
    Board { status, sites: Vec::new(), ready_count: 0, updated_at: now }
}

/// What a refresh needs next.
#[derive(Debug, Clone, PartialEq, Eq)]
pub enum RefreshStep {
    /// The board is settled.
    Done,
    /// Find the newest `Fleet_*.txt` of `character` in `dir` (the default
    /// Chatlogs directory when `None`).
    ResolveLog { dir: Option<String>, character: String },
}

/// The overlay: settings, the board, Ran and Clear marks, the active log.
pub struct Overlay {
    pub settings: OverlaySettings,
    pub board: Board,
    pub ran_ids: IdSet,
    pub cleared_ids: IdSet,
    pub active_log: Option<String>,
}

impl Overlay {
    /// Starts a refresh: without a character the board says so and no log
    /// is active; otherwise the active log of the character is needed.
    pub fn refresh_begin(&mut self, now: i64) -> (r: RefreshStep)
        ensures
            match old(self).settings.character {
                Some(c) if c@.len() > 0 => {
                    &&& r matches RefreshStep::ResolveLog { dir, character } && character@ == c@
                        && dir == old(self).settings.chatlogs_dir
                    &&& final(self).board == old(self).board
                    &&& final(self).active_log == old(self).active_log
                },
                _ => {
                    &&& r == RefreshStep::Done
                    &&& final(self).board.status == BoardStatus::NoCharacter
                    &&& final(self).board.sites@.len() == 0
                    &&& final(self).board.ready_count == 0
                    &&& final(self).board.updated_at == now
                    &&& final(self).active_log is None
                },
            },
            final(self).settings == old(self).settings,
            final(self).ran_ids@ == old(self).ran_ids@,
            final(self).cleared_ids@ == old(self).cleared_ids@,
    {
        let character = match &self.settings.character {
            Some(c) => if !c.as_str().is_empty() {
                Some(c.clone())
            } else {
                None
            },
            None => None,
        };
        match character {
            Some(c) => RefreshStep::ResolveLog { dir: self.settings.chatlogs_dir.clone(), character: c },
            None => {
                self.board = empty_board_exec(BoardStatus::NoCharacter, now);
                self.active_log = None;
                RefreshStep::Done
            },
        }
    }

    /// The active log was looked up: an error shows on the board (the active
    /// log stays); no log means waiting for one; a log becomes active and its
    /// candidates are needed next (the path returned).
    pub fn refresh_resolved(&mut self, character: String, resolved: Result<Option<String>, String>, now: i64) -> (r: Option<String>)
        ensures
            match resolved {
                Err(e) => {
                    &&& r is None
                    &&& final(self).board.status == (BoardStatus::Error { message: e })
                    &&& final(self).board.sites@.len() == 0
                    &&& final(self).board.ready_count == 0
                    &&& final(self).board.updated_at == now
                    &&& final(self).active_log == old(self).active_log
                },
                Ok(None) => {
                    &&& r is None
                    &&& final(self).board.status == (BoardStatus::WaitingForLog { character })
                    &&& final(self).board.sites@.len() == 0
                    &&& final(self).board.ready_count == 0
                    &&& final(self).board.updated_at == now
                    &&& final(self).active_log is None
                },
                Ok(Some(p)) => {
                    &&& r == Some(p)
                    &&& final(self).active_log == Some(p)
                    &&& final(self).board == old(self).board
                },
            },
            final(self).settings == old(self).settings,
            final(self).ran_ids@ == old(self).ran_ids@,
            final(self).cleared_ids@ == old(self).cleared_ids@,
    {
        match resolved {
            Err(e) => {
                self.board = empty_board_exec(BoardStatus::Error { message: e }, now);
                None
            },
            Ok(None) => {
                self.active_log = None;
                self.board = empty_board_exec(BoardStatus::WaitingForLog { character }, now);
                None
            },
            Ok(Some(p)) => {
                self.active_log = Some(p.clone());
                Some(p)
            },
        }
    }

    /// The active log was read: an error shows on the board; otherwise the
    /// board is rebuilt from its candidates, watching that log.
    pub fn refresh_read(&mut self, character: String, path: &str, candidates: Result<Vec<SiteCandidate>, String>, now: i64)
        requires
            candidates matches Ok(c) ==> candidates_in_range_spec(c@),
        ensures
            match candidates {
                Err(e) => {
                    &&& final(self).board.status == (BoardStatus::Error { message: e })
                    &&& final(self).board.sites@.len() == 0
                    &&& final(self).board.ready_count == 0
                    &&& final(self).board.updated_at == now
                },
                Ok(c) => {
                    &&& final(self).board.status matches BoardStatus::Watching { character: ch, log_name }
                        && ch == character && log_name@ == log_id_of(path@)
                    &&& final(self).board.updated_at == now
                    &&& crate::types::rows_view(final(self).board.sites@).to_multiset() == board_rows(
                        log_id_of(path@),
                        c@.map_values(|x: SiteCandidate| x@),
                        old(self).ran_ids@,
                        old(self).cleared_ids@,
                        now as int,
                    ).to_multiset()
                    &&& crate::board::sorted_rows(crate::types::rows_view(final(self).board.sites@))
                    &&& crate::board::board_wf(final(self).board)
                },
            },
            final(self).settings == old(self).settings,
            final(self).active_log == old(self).active_log,
            final(self).ran_ids@ == old(self).ran_ids@,
            final(self).cleared_ids@ == old(self).cleared_ids@,
    {
        match candidates {
            Err(e) => {
                self.board = empty_board_exec(BoardStatus::Error { message: e }, now);
            },
            Ok(c) => {
                let log_id = fleet_log_id(path);
                let status = BoardStatus::Watching { character, log_name: log_id.clone() };
                self.board = build_board(status, log_id.as_str(), &c, &self.ran_ids, &self.cleared_ids, now);
            },
        }
    }
}

} // verus!
