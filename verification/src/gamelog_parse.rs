//! EVE gamelog parsing: the header (Listener, Session Started) and typed
//! notify/combat events.
//!
//! A message line reads `[ YYYY.MM.DD hh:mm:ss ] (channel) body`, possibly
//! behind one byte-order mark.

use vstd::prelude::*;
use crate::clock::{eve_seconds, parse_eve_seconds, valid_ts};
use crate::parse::{ascii_lower, listener_in, stamp_prefix_at};
use crate::text::{
    chars_of, contains_in, find_char, find_in, first_index, nl_piece_ranges, nl_pieces,
    range_texts, ranges_within, line_ranges, seq_contains, skip_leading, str_lines, string_of,
    strip_leading, trim, trim_range, find_seq,
};

verus! {

#[derive(Debug, Clone, Copy, PartialEq, Eq, Structural)]
pub enum GamelogEventKind {
    FollowingWarp,
    Regrouping,
    CombatHit,
    Reload,
    CombatAny,
}

/// One typed event; `occurred_at` is UTC seconds since the epoch.
#[derive(Debug, Clone, PartialEq, Eq)]
pub struct GamelogEvent {
    pub occurred_at: i64,
    pub kind: GamelogEventKind,
    pub raw_hint: String,
}

pub ghost struct GamelogEventView {
    pub occurred_at: i64,
    pub kind: GamelogEventKind,
    pub raw_hint: Seq<char>,
}

impl View for GamelogEvent {
    type V = GamelogEventView;

    open spec fn view(&self) -> GamelogEventView {
        GamelogEventView { occurred_at: self.occurred_at, kind: self.kind, raw_hint: self.raw_hint@ }
    }
}

pub open spec fn events_view(s: Seq<GamelogEvent>) -> Seq<GamelogEventView> {
    s.map_values(|e: GamelogEvent| e@)
}

impl GamelogEvent {
    /// An event with the same fields.
    pub fn copied(&self) -> (r: GamelogEvent)
        ensures
            r@ == self@,
    {
        GamelogEvent { occurred_at: self.occurred_at, kind: self.kind, raw_hint: self.raw_hint.clone() }
    }
}

/// Where the `[` of a gamelog line is: after one optional byte-order mark.
pub open spec fn line_start(l: Seq<char>) -> int {
    if l.len() > 0 && l[0] == '\u{feff}' {
        1
    } else {
        0
    }
}

/// A gamelog message line split into (stamp, channel, body).
pub open spec fn gamelog_message(l: Seq<char>) -> Option<(Seq<char>, Seq<char>, Seq<char>)> {
    let o = line_start(l);
    if stamp_prefix_at(l, o) && l.len() > o + 24 && l[o + 24] == '(' {
        let rest = l.skip(o + 25);
        let c = o + 25 + first_index(rest, ')');
        if c > o + 25 && c + 1 < l.len() && l[c + 1] == ' ' {
            Some((l.subrange(o + 2, o + 21), l.subrange(o + 25, c), l.skip(c + 2)))
        } else {
            None
        }
    } else {
        None
    }
}

/// The event kind of a channel and body.
pub open spec fn classify(channel: Seq<char>, body: Seq<char>) -> Option<GamelogEventKind> {
    if channel == "notify"@ {
        if seq_contains(body, "Following"@) && seq_contains(body, "in warp"@) {
            Some(GamelogEventKind::FollowingWarp)
        } else if seq_contains(body, "Regrouping"@) {
            Some(GamelogEventKind::Regrouping)
        } else if seq_contains(body, "Loading the"@) && seq_contains(body, "Missile Launcher"@) {
            Some(GamelogEventKind::Reload)
        } else {
            None
        }
    } else if channel == "combat"@ {
        if seq_contains(body, "Hits"@) {
            Some(GamelogEventKind::CombatHit)
        } else {
            Some(GamelogEventKind::CombatAny)
        }
    } else {
        None
    }
}

pub open spec fn event_of_line(l: Seq<char>) -> Option<GamelogEventView> {
    match gamelog_message(l) {
        Some((stamp, channel, body)) => match classify(channel, body) {
            Some(kind) => match eve_seconds(stamp) {
                Some(t) => Some(GamelogEventView { occurred_at: t, kind: kind, raw_hint: body }),
                None => None,
            },
            None => None,
        },
        None => None,
    }
}

/// Events of `lines`, in order.
pub open spec fn events_of(lines: Seq<Seq<char>>) -> Seq<GamelogEventView>
    decreases lines.len(),
{
    if lines.len() == 0 {
        seq![]
    } else {
        match event_of_line(lines.last()) {
            Some(e) => events_of(lines.drop_last()).push(e),
            None => events_of(lines.drop_last()),
        }
    }
}

pub open spec fn gamelog_lines(text: Seq<char>) -> Seq<Seq<char>> {
    nl_pieces(strip_leading(text, '\u{feff}'))
}

/// `str::to_ascii_lowercase`.
pub open spec fn ascii_lower_seq(s: Seq<char>) -> Seq<char> {
    s.map_values(|c: char| ascii_lower(c))
}

/// The Session Started stamp a header line carries, if any.
pub open spec fn session_of_line(l: Seq<char>) -> Option<i64> {
    let t = strip_leading(trim(l), '\u{feff}');
    match find_seq(ascii_lower_seq(t), "session started:"@) {
        Some(idx) => eve_seconds(trim(t.skip(idx + "session started:"@.len()))),
        None => None,
    }
}

/// The first Session Started stamp in `lines`.
pub open spec fn session_in(lines: Seq<Seq<char>>) -> Option<i64>
    decreases lines.len(),
{
    if lines.len() == 0 {
        None
    } else {
        match session_of_line(lines[0]) {
            Some(t) => Some(t),
            None => session_in(lines.drop_first()),
        }
    }
}

/// Extract the Listener name from an EVE gamelog header, if present.
pub fn parse_listener(text: &str) -> (r: Option<String>)
    ensures
        match r {
            Some(n) => listener_in(str_lines(text@)) == Some(n@),
            None => listener_in(str_lines(text@)) is None,
        },
{
    crate::parse::parse_listener(text)
}

fn lower_range(v: &Vec<char>, a: usize, b: usize) -> (r: Vec<char>)
    requires
        a <= b <= v@.len(),
    ensures
        r@ == ascii_lower_seq(v@.subrange(a as int, b as int)),
{
    let mut r: Vec<char> = Vec::new();
    let mut i = a;
    while i < b
        invariant
            a <= i <= b <= v@.len(),
            r@ == ascii_lower_seq(v@.subrange(a as int, i as int)),
        decreases b - i,
    {
        let c = v[i];
        let d = if 'A' <= c && c <= 'Z' {
            let code = (c as u8) + 32;
            code as char
        } else {
            c
        };
        assert(d == ascii_lower(c));
        r.push(d);
        assert(r@ =~= ascii_lower_seq(v@.subrange(a as int, i + 1)));
        i = i + 1;
    }
    r
}

/// Extract the Session Started timestamp from an EVE gamelog header, if present.
pub fn parse_session_started(text: &str) -> (r: Option<i64>)
    ensures
        r == session_in(str_lines(text@)),
        r matches Some(t) ==> valid_ts(t as int),
{
    let v = chars_of(text);
    let ranges = line_ranges(&v, 0, v.len());
    assert(v@.subrange(0, v@.len() as int) =~= v@);
    let ghost lines = range_texts(v@, ranges@);
    let key = chars_of("session started:");
    assert(lines.skip(0) =~= lines);
    let mut i: usize = 0;
    while i < ranges.len()
        invariant
            lines == range_texts(v@, ranges@),
            ranges_within(ranges@, v@.len() as int),
            key@ == "session started:"@,
            lines == str_lines(text@),
            0 <= i <= ranges@.len(),
            session_in(lines) == session_in(lines.skip(i as int)),
        decreases ranges@.len() - i,
    {
        let (a, b) = ranges[i];
        let ghost l = v@.subrange(a as int, b as int);
        assert(lines[i as int] == l);
        assert(lines.skip(i as int)[0] == l);
        assert(lines.skip(i as int).drop_first() =~= lines.skip(i + 1));
        let (ta, tb) = trim_range(&v, a, b);
        let s = skip_leading(&v, ta, tb, '\u{feff}');
        let ghost t = strip_leading(trim(l), '\u{feff}');
        assert(t =~= v@.subrange(s as int, tb as int));
        let lower = lower_range(&v, s, tb);
        if let Some(idx) = find_in(&lower, 0, lower.len(), &key) {
            assert(lower@.subrange(0, lower@.len() as int) =~= lower@);
            let (ra, rb) = trim_range(&v, s + idx + key.len(), tb);
            assert(t.skip(idx + key@.len()) =~= v@.subrange(s + idx + key@.len(), tb as int));
            let rest = string_of(&v, ra, rb);
            let parsed = parse_eve_seconds(&rest);
            if parsed.is_some() {
                assert(ascii_lower_seq(t) == lower@);
                assert(find_seq(ascii_lower_seq(t), "session started:"@) == Some(idx as int));
                assert(trim(t.skip(idx + key@.len())) == rest@);
                assert(session_of_line(l) == parsed);
                assert(session_in(lines.skip(i as int)) == parsed);
                return parsed;
            }
        } else {
            assert(lower@.subrange(0, lower@.len() as int) =~= lower@);
        }
        i = i + 1;
    }
    None
}

/// Classify a gamelog message by channel and body.
fn classify_event(v: &Vec<char>, ca: usize, cb: usize, ba: usize, bb: usize) -> (r: Option<
    GamelogEventKind,
>)
    requires
        ca <= cb <= v@.len(),
        ba <= bb <= v@.len(),
    ensures
        r == classify(v@.subrange(ca as int, cb as int), v@.subrange(ba as int, bb as int)),
{
    let notify = chars_of("notify");
    let combat = chars_of("combat");
    let ghost ch = v@.subrange(ca as int, cb as int);
    let is_notify = cb - ca == notify.len() && crate::text::matches_at(v, ca, cb, &notify);
    let is_combat = cb - ca == combat.len() && crate::text::matches_at(v, ca, cb, &combat);
    assert(is_notify == (ch == "notify"@)) by {
        if ch == "notify"@ {
            assert(v@.subrange(ca as int, ca + notify@.len()) =~= ch);
        }
        if is_notify {
            assert(v@.subrange(ca as int, ca + notify@.len()) =~= ch);
        }
    }
    assert(is_combat == (ch == "combat"@)) by {
        if ch == "combat"@ {
            assert(v@.subrange(ca as int, ca + combat@.len()) =~= ch);
        }
        if is_combat {
            assert(v@.subrange(ca as int, ca + combat@.len()) =~= ch);
        }
    }
    if is_notify {
        if contains_in(v, ba, bb, &chars_of("Following")) && contains_in(
            v,
            ba,
            bb,
            &chars_of("in warp"),
        ) {
            Some(GamelogEventKind::FollowingWarp)
        } else if contains_in(v, ba, bb, &chars_of("Regrouping")) {
            Some(GamelogEventKind::Regrouping)
        } else if contains_in(v, ba, bb, &chars_of("Loading the")) && contains_in(
            v,
            ba,
            bb,
            &chars_of("Missile Launcher"),
        ) {
            Some(GamelogEventKind::Reload)
        } else {
            None
        }
    } else if is_combat {
        if contains_in(v, ba, bb, &chars_of("Hits")) {
            Some(GamelogEventKind::CombatHit)
        } else {
            Some(GamelogEventKind::CombatAny)
        }
    } else {
        None
    }
}

/// The channel/body bounds of the gamelog message line `v[a..b]`, if it is one.
fn gamelog_message_at(v: &Vec<char>, a: usize, b: usize) -> (r: Option<(usize, usize)>)
    requires
        a <= b <= v@.len(),
    ensures
        match r {
            Some((o, c)) => {
                let l = v@.subrange(a as int, b as int);
                &&& o == line_start(l)
                &&& a + o + 25 < c && c + 2 <= b
                &&& gamelog_message(l) == Some(
                    (
                        v@.subrange(a + o + 2, a + o + 21),
                        v@.subrange(a + o + 25, c as int),
                        v@.subrange(c + 2, b as int),
                    ),
                )
            },
            None => gamelog_message(v@.subrange(a as int, b as int)) is None,
        },
{
    let ghost l = v@.subrange(a as int, b as int);
    let o: usize = if a < b && v[a] == '\u{feff}' {
        1
    } else {
        0
    };
    assert(o == line_start(l));
    if b - a < o + 25 {
        return None;
    }
    let s = a + o;
    if !crate::parse::stamp_prefix_exec(v, s, b) {
        assert(!stamp_prefix_at(l, o as int)) by {
            if stamp_prefix_at(l, o as int) {
                assert(l.subrange(o + 2, o + 21) =~= v@.subrange(s + 2, s + 21));
                assert(v@.subrange(s as int, b as int).subrange(2, 21) =~= v@.subrange(s + 2, s + 21));
                assert(stamp_prefix_at(v@.subrange(s as int, b as int), 0));
            }
        }
        return None;
    }
    assert(stamp_prefix_at(l, o as int)) by {
        assert(l.subrange(o + 2, o + 21) =~= v@.subrange(s + 2, s + 21));
        assert(v@.subrange(s as int, b as int).subrange(2, 21) =~= v@.subrange(s + 2, s + 21));
    }
    if v[s + 24] != '(' {
        return None;
    }
    let c = find_char(v, s + 25, b, ')');
    assert(l.skip(o + 25) =~= v@.subrange(s + 25, b as int));
    if c > s + 25 && c < b - 1 && v[c + 1] == ' ' {
        assert(l.subrange(o + 2, o + 21) =~= v@.subrange(s + 2, s + 21));
        assert(l.subrange(o + 25, c - a) =~= v@.subrange(s + 25, c as int));
        assert(l.skip(c - a + 2) =~= v@.subrange(c + 2, b as int));
        Some((o, c))
    } else {
        None
    }
}

/// Parse gamelog message lines into typed events, in order.
pub fn parse_gamelog_events(text: &str) -> (r: Vec<GamelogEvent>)
    ensures
        events_view(r@) == events_of(gamelog_lines(text@)),
        forall|i: int| 0 <= i < r@.len() ==> valid_ts((#[trigger] r@[i]).occurred_at as int),
{
    let v = chars_of(text);
    let start = skip_leading(&v, 0, v.len(), '\u{feff}');
    let ranges = nl_piece_ranges(&v, start, v.len());
    let ghost lines = gamelog_lines(text@);
    assert(v@.subrange(0, v@.len() as int) =~= v@);
    let mut out: Vec<GamelogEvent> = Vec::new();
    let mut i: usize = 0;
    assert(lines.take(0) =~= Seq::<Seq<char>>::empty());
    assert(events_view(out@) =~= Seq::<GamelogEventView>::empty());
    while i < ranges.len()
        invariant
            lines == range_texts(v@, ranges@),
            ranges_within(ranges@, v@.len() as int),
            0 <= i <= ranges@.len(),
            events_view(out@) == events_of(lines.take(i as int)),
            forall|k: int| 0 <= k < out@.len() ==> valid_ts((#[trigger] out@[k]).occurred_at as int),
        decreases ranges@.len() - i,
    {
        let (a, b) = ranges[i];
        let ghost l = v@.subrange(a as int, b as int);
        assert(lines[i as int] == l);
        assert(lines.take(i + 1).drop_last() =~= lines.take(i as int));
        assert(lines.take(i + 1).last() == l);
        if let Some((o, c)) = gamelog_message_at(&v, a, b) {
            if let Some(kind) = classify_event(&v, a + o + 25, c, c + 2, b) {
                let stamp = string_of(&v, a + o + 2, a + o + 21);
                if let Some(t) = parse_eve_seconds(&stamp) {
                    let e = GamelogEvent { occurred_at: t, kind, raw_hint: string_of(&v, c + 2, b) };
                    out.push(e);
                    assert(events_view(out@) =~= events_view(out@.drop_last()).push(e@));
                }
            }
        }
        i = i + 1;
    }
    assert(lines.take(ranges@.len() as int) =~= lines);
    out
}

} // verus!
