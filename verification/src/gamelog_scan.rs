//! A scan of the Gamelogs directory: the files newest first, and for each
//! one whose session overlaps the wallet window, its Listener and events.
//! Listing the directory and reading the files is the caller's.

use vstd::prelude::*;
use crate::board::{
    lemma_lex_irreflexive, lemma_lex_total, lemma_lex_transitive, lex_lt, lex_lt_exec,
};
use crate::gamelog_parse::{
    events_of, events_view, gamelog_lines, parse_gamelog_events, parse_listener, parse_session_started, session_in,
    GamelogEvent, GamelogEventView,
};
use crate::parse::listener_in;
use crate::text::{chars_of, str_lines};

verus! {

/// One gamelog file: its Listener, its path, and its typed events.
#[derive(Debug, Clone, PartialEq, Eq)]
pub struct ListenerLog {
    pub listener: String,
    pub path: String,
    pub events: Vec<GamelogEvent>,
}

pub ghost struct ListenerLogView {
    pub listener: Seq<char>,
    pub path: Seq<char>,
    pub events: Seq<GamelogEventView>,
}

impl View for ListenerLog {
    type V = ListenerLogView;

    open spec fn view(&self) -> ListenerLogView {
        ListenerLogView {
            listener: self.listener@,
            path: self.path@,
            events: events_view(self.events@),
        }
    }
}

pub open spec fn logs_view(s: Seq<ListenerLog>) -> Seq<ListenerLogView> {
    s.map_values(|l: ListenerLog| l@)
}

/// Logs that were read, and what was skipped and why.
#[derive(Debug, Clone, PartialEq, Eq)]
pub struct ScanResult {
    pub logs: Vec<ListenerLog>,
    pub diagnostics: Vec<String>,
}

/// Seconds past the wallet end in which a session may still start (clock
/// skew).
pub const SESSION_END_SLACK_SECONDS: i64 = 300;

/// A file of the Gamelogs directory: its path, its text (or why it could
/// not be read), and its modification time, when known.
#[derive(Debug, PartialEq, Eq)]
pub struct GamelogFile {
    pub path: String,
    pub text: Result<String, String>,
    pub modified: Option<i128>,
}

/// `a` is listed no later than `b`: newer first, files without a time
/// last, equal times by path, descending.
pub open spec fn listed_before(a: GamelogFile, b: GamelogFile) -> bool {
    match (a.modified, b.modified) {
        (Some(x), Some(y)) => x > y || (x == y && !lex_lt(a.path@, b.path@)),
        (Some(_), None) => true,
        (None, Some(_)) => false,
        (None, None) => !lex_lt(a.path@, b.path@),
    }
}

pub open spec fn newest_first_sorted(s: Seq<GamelogFile>) -> bool {
    forall|i: int, j: int| 0 <= i < j < s.len() ==> listed_before(#[trigger] s[i], #[trigger] s[j])
}

proof fn lemma_listed_total(a: GamelogFile, b: GamelogFile)
    ensures
        listed_before(a, b) || listed_before(b, a),
{
    if lex_lt(a.path@, b.path@) && lex_lt(b.path@, a.path@) {
        lemma_lex_transitive(a.path@, b.path@, a.path@);
        lemma_lex_irreflexive(a.path@);
    }
}

proof fn lemma_listed_transitive(a: GamelogFile, b: GamelogFile, c: GamelogFile)
    requires
        listed_before(a, b),
        listed_before(b, c),
    ensures
        listed_before(a, c),
{
    if a.modified == c.modified && a.modified == b.modified {
        if lex_lt(a.path@, c.path@) {
            if b.path@ == a.path@ {
            } else if b.path@ == c.path@ {
            } else {
                lemma_lex_total(a.path@, b.path@);
                lemma_lex_total(b.path@, c.path@);
                if lex_lt(b.path@, a.path@) && lex_lt(c.path@, b.path@) {
                    lemma_lex_transitive(c.path@, b.path@, a.path@);
                    lemma_lex_transitive(a.path@, c.path@, a.path@);
                    lemma_lex_irreflexive(a.path@);
                }
            }
        }
    }
}

/// `a` is listed no later than `b`.
fn listed_before_exec(a: &GamelogFile, b: &GamelogFile) -> (r: bool)
    ensures
        r == listed_before(*a, *b),
{
    match (a.modified, b.modified) {
        (Some(x), Some(y)) => if x != y {
            x > y
        } else {
            !lex_lt_exec(&chars_of(a.path.as_str()), &chars_of(b.path.as_str()))
        },
        (Some(_), None) => true,
        (None, Some(_)) => false,
        (None, None) => !lex_lt_exec(&chars_of(a.path.as_str()), &chars_of(b.path.as_str())),
    }
}

/// The files newest first; files without a time last; equal times by path,
/// descending.
pub fn newest_first(files: Vec<GamelogFile>) -> (r: Vec<GamelogFile>)
    ensures
        r@.to_multiset() == files@.to_multiset(),
        newest_first_sorted(r@),
{
    broadcast use vstd::seq_lib::group_to_multiset_ensures;
    let ghost m0 = files@.to_multiset();
    let mut rest = files;
    let mut out: Vec<GamelogFile> = Vec::new();
    while rest.len() > 0
        invariant
            out@.to_multiset().add(rest@.to_multiset()) == m0,
            newest_first_sorted(out@),
            forall|i: int, j: int|
                0 <= i < out@.len() && 0 <= j < rest@.len() ==> listed_before(#[trigger] out@[i], #[trigger] rest@[j]),
        decreases rest@.len(),
    {
        let mut best: usize = 0;
        let mut j: usize = 1;
        proof {
            lemma_lex_irreflexive(rest@[0].path@);
        }
        while j < rest.len()
            invariant
                0 <= best < j <= rest@.len(),
                forall|t: int| 0 <= t < j ==> listed_before(rest@[best as int], #[trigger] rest@[t]),
            decreases rest@.len() - j,
        {
            if !listed_before_exec(&rest[best], &rest[j]) {
                proof {
                    let old_best = rest@[best as int];
                    lemma_listed_total(old_best, rest@[j as int]);
                    assert forall|t: int| 0 <= t <= j implies listed_before(rest@[j as int], #[trigger] rest@[t]) by {
                        if t < j {
                            lemma_listed_transitive(rest@[j as int], old_best, rest@[t]);
                        } else {
                            lemma_lex_irreflexive(rest@[j as int].path@);
                        }
                    }
                }
                best = j;
            }
            j = j + 1;
        }
        let ghost before_rest = rest@;
        let ghost before_out = out@;
        let x = rest.remove(best);
        proof {
            vstd::seq_lib::to_multiset_remove(before_rest, best as int);
            assert(before_rest.to_multiset().count(x) > 0) by {
                vstd::seq_lib::to_multiset_contains(before_rest, x);
                assert(before_rest[best as int] == x);
            }
        }
        out.push(x);
        proof {
            assert(out@ =~= before_out.push(x));
            vstd::seq_lib::to_multiset_build(before_out, x);
            assert(out@.to_multiset().add(rest@.to_multiset()) =~= m0);
            assert forall|i: int, k: int| 0 <= i < k < out@.len() implies listed_before(#[trigger] out@[i], #[trigger] out@[k]) by {
                if k == before_out.len() {
                    assert(out@[k] == before_rest[best as int]);
                    assert(listed_before(before_out[i], before_rest[best as int]));
                } else {
                    assert(listed_before(before_out[i], before_out[k]));
                }
            }
            assert forall|i: int, k: int| 0 <= i < out@.len() && 0 <= k < rest@.len() implies listed_before(#[trigger] out@[i], #[trigger] rest@[k]) by {
                let kk = if k < best { k } else { k + 1 };
                assert(rest@[k] == before_rest[kk]);
                if i == before_out.len() {
                } else {
                    assert(listed_before(before_out[i], before_rest[kk]));
                }
            }
        }
    }
    proof {
        assert(rest@.to_multiset() =~= vstd::multiset::Multiset::empty());
        assert(out@.to_multiset().add(vstd::multiset::Multiset::empty()) =~= out@.to_multiset());
    }
    out
}

/// What one file adds to a scan of the window `[lo, hi]`: its log, when its
/// session starts inside the window and it names a Listener; a message when
/// it cannot be read or has no Session Started or Listener line; nothing
/// when its session lies outside the window.
pub open spec fn scan_step(f: GamelogFile, lo: int, hi: int) -> (Option<ListenerLogView>, Option<Seq<char>>) {
    match f.text {
        Err(e) => (None, Some("Skipped unreadable gamelog "@ + f.path@ + ": "@ + e@)),
        Ok(t) => match session_in(str_lines(t@)) {
            None => (None, Some("Skipped gamelog without Session Started: "@ + f.path@)),
            Some(session) => if session < lo || session > hi {
                (None, None)
            } else {
                match listener_in(str_lines(t@)) {
                    None => (None, Some("Skipped gamelog without Listener: "@ + f.path@)),
                    Some(l) => (
                        Some(ListenerLogView { listener: l, path: f.path@, events: events_of(gamelog_lines(t@)) }),
                        None,
                    ),
                }
            },
        },
    }
}

/// The logs and messages of scanning `files` in order.
pub open spec fn scan_fold(files: Seq<GamelogFile>, lo: int, hi: int) -> (Seq<ListenerLogView>, Seq<Seq<char>>)
    decreases files.len(),
{
    if files.len() == 0 {
        (Seq::empty(), Seq::empty())
    } else {
        let (logs, msgs) = scan_fold(files.drop_last(), lo, hi);
        let (k, m) = scan_step(files.last(), lo, hi);
        (
            match k {
                Some(l) => logs.push(l),
                None => logs,
            },
            match m {
                Some(x) => msgs.push(x),
                None => msgs,
            },
        )
    }
}

pub open spec fn listing_messages(errors: Seq<String>) -> Seq<Seq<char>> {
    errors.map_values(|e: String| "Failed to read directory entry: "@ + e@)
}

/// A scan of `files` in the order given, for sessions in
/// `[expanded_start, wallet_end + slack]`.
fn scan_in_order(files: &Vec<GamelogFile>, expanded_start: i64, wallet_end: i64, messages: Vec<String>) -> (r: ScanResult)
    ensures
        logs_view(r.logs@) == scan_fold(files@, expanded_start as int, wallet_end + SESSION_END_SLACK_SECONDS).0,
        r.diagnostics@.map_values(|m: String| m@) == messages@.map_values(|m: String| m@) + scan_fold(
            files@,
            expanded_start as int,
            wallet_end + SESSION_END_SLACK_SECONDS,
        ).1,
{
    let ghost lo = expanded_start as int;
    let ghost hi = wallet_end + SESSION_END_SLACK_SECONDS;
    let ghost base = messages@.map_values(|m: String| m@);
    let mut logs: Vec<ListenerLog> = Vec::new();
    let mut diagnostics = messages;
    let mut i: usize = 0;
    while i < files.len()
        invariant
            0 <= i <= files@.len(),
            lo == expanded_start as int,
            hi == wallet_end + SESSION_END_SLACK_SECONDS,
            logs_view(logs@) == scan_fold(files@.take(i as int), lo, hi).0,
            diagnostics@.map_values(|m: String| m@) == base + scan_fold(files@.take(i as int), lo, hi).1,
        decreases files@.len() - i,
    {
        assert(files@.take(i + 1).drop_last() =~= files@.take(i as int));
        assert(files@.take(i + 1).last() == files@[i as int]);
        let ghost logs0 = logs@;
        let ghost diags0 = diagnostics@;
        let f = &files[i];
        match &f.text {
            Err(e) => {
                let mut m = String::from_str("Skipped unreadable gamelog ");
                m.append(f.path.as_str());
                m.append(": ");
                m.append(e.as_str());
                diagnostics.push(m);
            },
            Ok(t) => match parse_session_started(t.as_str()) {
                None => {
                    let mut m = String::from_str("Skipped gamelog without Session Started: ");
                    m.append(f.path.as_str());
                    diagnostics.push(m);
                },
                Some(session) => {
                    if (session as i128) < (expanded_start as i128) || (session as i128) > (wallet_end as i128)
                        + (SESSION_END_SLACK_SECONDS as i128) {
                    } else {
                        match parse_listener(t.as_str()) {
                            None => {
                                let mut m = String::from_str("Skipped gamelog without Listener: ");
                                m.append(f.path.as_str());
                                diagnostics.push(m);
                            },
                            Some(listener) => {
                                let events = parse_gamelog_events(t.as_str());
                                logs.push(ListenerLog { listener, path: f.path.clone(), events });
                            },
                        }
                    }
                },
            },
        }
        proof {
            let (k, m) = scan_step(files@[i as int], lo, hi);
            match k {
                Some(l) => assert(logs_view(logs@) =~= logs_view(logs0).push(l)),
                None => assert(logs@ == logs0),
            }
            match m {
                Some(x) => assert(diagnostics@.map_values(|m: String| m@) =~= diags0.map_values(|m: String| m@).push(x)),
                None => assert(diagnostics@ == diags0),
            }
        }
        i = i + 1;
    }
    assert(files@.take(files@.len() as int) =~= files@);
    ScanResult { logs, diagnostics }
}

/// Scans the files of the Gamelogs directory: newest first, each file whose
/// session starts in `[expanded_start, wallet_end + 5 min]` gives its log;
/// unreadable files and files without a Session Started or Listener line
/// give a message. The messages start with the directory entries that
/// could not be read.
pub fn scan_gamelog_files(
    files: Vec<GamelogFile>,
    listing_errors: &Vec<String>,
    expanded_start: i64,
    wallet_end: i64,
) -> (r: ScanResult)
    ensures
        exists|order: Seq<GamelogFile>|
            {
                &&& order.to_multiset() == files@.to_multiset()
                &&& newest_first_sorted(order)
                &&& logs_view(r.logs@) == scan_fold(order, expanded_start as int, wallet_end + SESSION_END_SLACK_SECONDS).0
                &&& r.diagnostics@.map_values(|m: String| m@) == listing_messages(listing_errors@) + scan_fold(
                    order,
                    expanded_start as int,
                    wallet_end + SESSION_END_SLACK_SECONDS,
                ).1
            },
{
    let mut messages: Vec<String> = Vec::new();
    let mut i: usize = 0;
    while i < listing_errors.len()
        invariant
            0 <= i <= listing_errors@.len(),
            messages@.len() == i,
            messages@.map_values(|m: String| m@) == listing_messages(listing_errors@.take(i as int)),
        decreases listing_errors@.len() - i,
    {
        let mut m = String::from_str("Failed to read directory entry: ");
        m.append(listing_errors[i].as_str());
        let ghost before = messages@;
        messages.push(m);
        proof {
            let mv = messages@.map_values(|m: String| m@);
            let lm = listing_messages(listing_errors@.take(i + 1));
            assert forall|k: int| 0 <= k < i + 1 implies mv[k] == lm[k] by {
                if k < i {
                    assert(messages@[k] == before[k]);
                    assert(before.map_values(|m: String| m@)[k] == listing_messages(listing_errors@.take(i as int))[k]);
                }
            }
            assert(mv =~= lm);
        }
        i = i + 1;
    }
    assert(listing_errors@.take(listing_errors@.len() as int) =~= listing_errors@);
    let ordered = newest_first(files);
    let r = scan_in_order(&ordered, expanded_start, wallet_end, messages);
    assert(newest_first_sorted(ordered@));
    r
}


/// What a scan in a given order keeps: the log of every file that
/// qualifies, and nothing but such logs.
proof fn lemma_scan_fold_logs(order: Seq<GamelogFile>, lo: int, hi: int)
    ensures
        forall|i: int|
            0 <= i < order.len() && (#[trigger] scan_step(order[i], lo, hi)).0 is Some ==> scan_fold(
                order,
                lo,
                hi,
            ).0.contains(scan_step(order[i], lo, hi).0->0),
        forall|l: ListenerLogView|
            #[trigger] scan_fold(order, lo, hi).0.contains(l) ==> exists|i: int|
                0 <= i < order.len() && (#[trigger] scan_step(order[i], lo, hi)).0 == Some(l),
    decreases order.len(),
{
    if order.len() > 0 {
        let p = order.drop_last();
        lemma_scan_fold_logs(p, lo, hi);
        let (logs, _) = scan_fold(p, lo, hi);
        let last = order.last();
        assert(order[order.len() - 1] == last);
        assert forall|i: int|
            0 <= i < order.len() && (#[trigger] scan_step(order[i], lo, hi)).0 is Some implies scan_fold(
                order,
                lo,
                hi,
            ).0.contains(scan_step(order[i], lo, hi).0->0) by {
            let out = scan_fold(order, lo, hi).0;
            let l = scan_step(order[i], lo, hi).0->0;
            if i < order.len() - 1 {
                assert(p[i] == order[i]);
                assert(scan_step(p[i], lo, hi).0 is Some);
                assert(logs.contains(l));
                let k = choose|k: int| 0 <= k < logs.len() && logs[k] == l;
                assert(out[k] == l);
            } else {
                assert(out[out.len() - 1] == l);
            }
        }
        assert forall|l: ListenerLogView| #[trigger] scan_fold(order, lo, hi).0.contains(l) implies exists|i: int|
            0 <= i < order.len() && (#[trigger] scan_step(order[i], lo, hi)).0 == Some(l) by {
            let out = scan_fold(order, lo, hi).0;
            let k = choose|k: int| 0 <= k < out.len() && out[k] == l;
            if k < logs.len() {
                assert(logs[k] == l);
                assert(logs.contains(l));
                let i = choose|i: int| 0 <= i < p.len() && (#[trigger] scan_step(p[i], lo, hi)).0 == Some(l);
                assert(p[i] == order[i]);
                assert(scan_step(order[i], lo, hi).0 == Some(l));
            } else {
                assert(scan_step(order[order.len() - 1], lo, hi).0 == Some(l));
            }
        }
    }
}

/// A scan keeps exactly the qualifying files, whatever order it reads them
/// in: every file whose session starts in the window and that names a
/// Listener gives its log (Listener, path, events), and every log comes
/// from such a file.
pub proof fn law_scan_keeps_qualifying_files(
    files: Seq<GamelogFile>,
    order: Seq<GamelogFile>,
    lo: int,
    hi: int,
)
    requires
        order.to_multiset() == files.to_multiset(),
    ensures
        forall|i: int|
            0 <= i < files.len() && (#[trigger] scan_step(files[i], lo, hi)).0 is Some ==> scan_fold(
                order,
                lo,
                hi,
            ).0.contains(scan_step(files[i], lo, hi).0->0),
        forall|l: ListenerLogView|
            #[trigger] scan_fold(order, lo, hi).0.contains(l) ==> exists|i: int|
                0 <= i < files.len() && (#[trigger] scan_step(files[i], lo, hi)).0 == Some(l),
{
    lemma_scan_fold_logs(order, lo, hi);
    order.to_multiset_ensures();
    files.to_multiset_ensures();
    assert forall|i: int|
        0 <= i < files.len() && (#[trigger] scan_step(files[i], lo, hi)).0 is Some implies scan_fold(
            order,
            lo,
            hi,
        ).0.contains(scan_step(files[i], lo, hi).0->0) by {
        let f = files[i];
        assert(files.contains(f));
        assert(order.to_multiset().count(f) > 0);
        assert(order.contains(f));
        let j = choose|j: int| 0 <= j < order.len() && order[j] == f;
        assert(scan_step(order[j], lo, hi).0 is Some);
    }
    assert forall|l: ListenerLogView| #[trigger] scan_fold(order, lo, hi).0.contains(l) implies exists|i: int|
        0 <= i < files.len() && (#[trigger] scan_step(files[i], lo, hi)).0 == Some(l) by {
        let j = choose|j: int| 0 <= j < order.len() && (#[trigger] scan_step(order[j], lo, hi)).0 == Some(l);
        let f = order[j];
        assert(order.contains(f));
        assert(files.to_multiset().count(f) > 0);
        assert(files.contains(f));
        let i = choose|i: int| 0 <= i < files.len() && files[i] == f;
        assert(scan_step(files[i], lo, hi).0 == Some(l));
    }
}

} // verus!
