//! Live follow of the overlay Listener's gamelog for fleet-warp prompts.

use vstd::prelude::*;

use crate::gamelog_parse::{
    events_of, gamelog_lines, parse_gamelog_events, GamelogEventKind, GamelogEventView, events_view,
};
use crate::paths::{
    eq_ignore_ascii_case, eq_ignore_ascii_case_exec, extension_of, extension_text, file_name_of,
    file_name_text, path_starts_with, same_path, same_path_exec, starts_with_path,
};


verus! {

/// Which gamelog was last seen and the latest warp in it (UTC seconds).
#[derive(Debug, Clone, PartialEq, Eq)]
pub struct WarpWatchCursor {
    pub path: Option<String>,
    pub last_warp_at: Option<i64>,
}

pub ghost struct CursorView {
    pub path: Option<Seq<char>>,
    pub last_warp_at: Option<i64>,
}

impl View for WarpWatchCursor {
    type V = CursorView;

    open spec fn view(&self) -> CursorView {
        CursorView {
            path: match self.path {
                Some(p) => Some(p@),
                None => None,
            },
            last_warp_at: self.last_warp_at,
        }
    }
}

impl Default for WarpWatchCursor {
    fn default() -> (r: Self)
        ensures
            r@ == (CursorView { path: None, last_warp_at: None }),
    {
        WarpWatchCursor { path: None, last_warp_at: None }
    }
}

#[derive(Debug, Clone, Copy, PartialEq, Eq, Structural)]
pub enum WarpPoll {
    /// Nothing to prompt for.
    Quiet,
    NewWarp,
}

/// The cursor is on gamelog `p` (the same path, component by component).
pub open spec fn seen(c: CursorView, p: Seq<char>) -> bool {
    c.path matches Some(q) && same_path(q, p)
}

/// One poll: no gamelog resets the cursor; a gamelog other than the one seen
/// before (or the first) only records its latest warp; on the same gamelog a
/// latest warp later than the recorded one (or the first warp) prompts.
pub open spec fn poll_of(c: CursorView, path: Option<Seq<char>>, latest: Option<i64>) -> (CursorView, WarpPoll) {
    match path {
        None => (CursorView { path: None, last_warp_at: None }, WarpPoll::Quiet),
        Some(p) => if !seen(c, p) {
            (CursorView { path: Some(p), last_warp_at: latest }, WarpPoll::Quiet)
        } else {
            match (latest, c.last_warp_at) {
                (Some(l), Some(prev)) => if l > prev {
                    (CursorView { path: c.path, last_warp_at: Some(l) }, WarpPoll::NewWarp)
                } else {
                    (CursorView { path: c.path, last_warp_at: Some(l) }, WarpPoll::Quiet)
                },
                (Some(l), None) => (CursorView { path: c.path, last_warp_at: Some(l) }, WarpPoll::NewWarp),
                (None, _) => (c, WarpPoll::Quiet),
            }
        },
    }
}

/// First sight of a file (or a new file) only baselines. Later warps after
/// that timestamp are `NewWarp`, so history already in the log never prompts.
pub fn poll_following_warp(cursor: &mut WarpWatchCursor, path: Option<String>, latest_warp: Option<i64>) -> (r: WarpPoll)
    ensures
        (final(cursor)@, r) == poll_of(
            old(cursor)@,
            match path {
                Some(p) => Some(p@),
                None => None,
            },
            latest_warp,
        ),
{
    match path {
        None => {
            *cursor = WarpWatchCursor::default();
            WarpPoll::Quiet
        },
        Some(p) => {
            let same = match &cursor.path {
                Some(q) => same_path_exec(q.as_str(), p.as_str()),
                None => false,
            };
            if !same {
                cursor.path = Some(p);
                cursor.last_warp_at = latest_warp;
                return WarpPoll::Quiet;
            }
            match (latest_warp, cursor.last_warp_at) {
                (Some(l), Some(prev)) => {
                    cursor.last_warp_at = Some(l);
                    if l > prev {
                        WarpPoll::NewWarp
                    } else {
                        WarpPoll::Quiet
                    }
                },
                (Some(l), None) => {
                    cursor.last_warp_at = Some(l);
                    WarpPoll::NewWarp
                },
                (None, _) => WarpPoll::Quiet,
            }
        },
    }
}

/// A first poll of a gamelog, or a poll of another gamelog than the last
/// one, never prompts, and records that gamelog with its latest warp.
pub proof fn law_new_file_baselines(c: CursorView, p: Seq<char>, latest: Option<i64>)
    requires
        !seen(c, p),
    ensures
        poll_of(c, Some(p), latest) == (CursorView { path: Some(p), last_warp_at: latest }, WarpPoll::Quiet),
{
}

/// On the gamelog already seen, a poll prompts exactly when it reports a
/// warp later than the recorded one (or the first warp).
pub proof fn law_prompt_iff_later_warp(c: CursorView, p: Seq<char>, latest: Option<i64>)
    requires
        seen(c, p),
    ensures
        (poll_of(c, Some(p), latest).1 == WarpPoll::NewWarp) <==> (latest matches Some(l) && (
        c.last_warp_at is None || l > c.last_warp_at->0)),
{
}

/// Polling again with what was just reported never prompts: one warp gives
/// at most one prompt.
pub proof fn law_repeat_poll_is_quiet(c: CursorView, path: Option<Seq<char>>, latest: Option<i64>)
    ensures
        poll_of(poll_of(c, path, latest).0, path, latest).1 == WarpPoll::Quiet,
{
}

/// A gamelog file: extension `txt`, in any ASCII case.
pub open spec fn gamelog_file(p: Seq<char>) -> bool {
    match extension_text(p) {
        Some(e) => eq_ignore_ascii_case(e, "txt"@),
        None => false,
    }
}

pub fn is_gamelog(path: &str) -> (r: bool)
    ensures
        r == gamelog_file(path@),
{
    match extension_of(path) {
        Some(e) => eq_ignore_ascii_case_exec(e.as_str(), "txt"),
        None => false,
    }
}

/// The file name of a gamelog, by which the newest one is picked.
pub open spec fn stamp_of(p: Seq<char>) -> Seq<char> {
    match file_name_text(p) {
        Some(n) => n,
        None => seq![],
    }
}

pub fn gamelog_stamp(path: &str) -> (r: String)
    ensures
        r@ == stamp_of(path@),
{
    match file_name_of(path) {
        Some(n) => n,
        None => String::new(),
    }
}

/// A change under the Gamelogs directory, or to any `.txt` file.
pub fn path_in_gamelogs(gamelogs: &str, changed: &str) -> (r: bool)
    ensures
        r == (path_starts_with(changed@, gamelogs@) || gamelog_file(changed@)),
{
    starts_with_path(changed, gamelogs) || is_gamelog(changed)
}

/// The latest time of a `FollowingWarp` event.
pub open spec fn latest_warp(s: Seq<GamelogEventView>) -> Option<i64>
    decreases s.len(),
{
    if s.len() == 0 {
        None
    } else {
        let r = latest_warp(s.drop_last());
        let e = s.last();
        if e.kind == GamelogEventKind::FollowingWarp {
            match r {
                Some(m) => if m >= e.occurred_at {
                    Some(m)
                } else {
                    Some(e.occurred_at)
                },
                None => Some(e.occurred_at),
            }
        } else {
            r
        }
    }
}

/// The latest `FollowingWarp` in a gamelog's text.
pub fn latest_following_warp_at(text: &str) -> (r: Option<i64>)
    ensures
        r == latest_warp(events_of(gamelog_lines(text@))),
{
    let events = parse_gamelog_events(text);
    let ghost ev = events_view(events@);
    let mut best: Option<i64> = None;
    let mut i: usize = 0;
    while i < events.len()
        invariant
            0 <= i <= events@.len(),
            ev == events_view(events@),
            best == latest_warp(ev.take(i as int)),
        decreases events@.len() - i,
    {
        assert(ev.take(i + 1).drop_last() =~= ev.take(i as int));
        let e = &events[i];
        if e.kind == GamelogEventKind::FollowingWarp {
            best = match best {
                Some(m) => if m >= e.occurred_at {
                    Some(m)
                } else {
                    Some(e.occurred_at)
                },
                None => Some(e.occurred_at),
            };
        }
        i = i + 1;
    }
    assert(ev.take(events@.len() as int) =~= ev);
    best
}

} // verus!
