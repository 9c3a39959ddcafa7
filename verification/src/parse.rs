//! Fleet chatlog parsing: the Listener header and single-character site tags.
//!
//! A message line reads `[ YYYY.MM.DD hh:mm:ss ] Speaker > body`. Lines are the
//! `'\n'`-separated pieces of the text once its leading byte-order marks are
//! removed.

use vstd::prelude::*;
use crate::clock::{eve_seconds, parse_eve_seconds};
use crate::text::{
    chars_of, matches_at, nl_piece_ranges, nl_pieces, push_char, range_texts, ranges_within,
    line_ranges, seq_starts_with, skip_leading, str_lines, string_of, strip_leading, trim,
    trim_range,
};
use crate::types::{SiteCandidate, SiteCandidateView};

verus! {

pub open spec fn is_digit(c: char) -> bool {
    '0' <= c <= '9'
}

pub open spec fn is_ascii_alnum(c: char) -> bool {
    ||| '0' <= c <= '9'
    ||| 'a' <= c <= 'z'
    ||| 'A' <= c <= 'Z'
}

pub open spec fn ascii_lower(c: char) -> char {
    if 'A' <= c <= 'Z' {
        ((c as u32) + 32) as char
    } else {
        c
    }
}

/// `YYYY.MM.DD hh:mm:ss` with ASCII digits.
pub open spec fn ts_shape(s: Seq<char>) -> bool {
    &&& s.len() == 19
    &&& forall|i: int|
        0 <= i < 19 && i != 4 && i != 7 && i != 10 && i != 13 && i != 16 ==> is_digit(#[trigger] s[i])
    &&& s[4] == '.' && s[7] == '.' && s[10] == ' ' && s[13] == ':' && s[16] == ':'
}

/// `[ <stamp> ] ` opening a line at `o`.
pub open spec fn stamp_prefix_at(l: Seq<char>, o: int) -> bool {
    &&& 0 <= o
    &&& l.len() >= o + 24
    &&& l[o] == '[' && l[o + 1] == ' '
    &&& ts_shape(l.subrange(o + 2, o + 21))
    &&& l[o + 21] == ' ' && l[o + 22] == ']' && l[o + 23] == ' '
}

/// ` > ` at `j`.
pub open spec fn arrow_at(l: Seq<char>, j: int) -> bool {
    0 <= j && j + 3 <= l.len() && l[j] == ' ' && l[j + 1] == '>' && l[j + 2] == ' '
}

/// First `j` at or after `from` with ` > ` at `j`, or `l.len()`.
pub open spec fn arrow_from(l: Seq<char>, from: int) -> int
    decreases l.len() - from,
{
    if from < 0 || from + 3 > l.len() {
        l.len() as int
    } else if arrow_at(l, from) {
        from
    } else {
        arrow_from(l, from + 1)
    }
}

/// A chat message line split into (stamp, speaker, body); the speaker is the
/// shortest non-empty text before a ` > `.
pub open spec fn chat_message(l: Seq<char>) -> Option<(Seq<char>, Seq<char>, Seq<char>)> {
    if stamp_prefix_at(l, 0) && arrow_from(l, 25) < l.len() {
        let j = arrow_from(l, 25);
        Some((l.subrange(2, 21), l.subrange(24, j), l.subrange(j + 3, l.len() as int)))
    } else {
        None
    }
}

/// A body that is exactly one ASCII letter or digit (after trimming) is a tag,
/// lower-cased.
pub open spec fn site_tag(body: Seq<char>) -> Option<Seq<char>> {
    let t = trim(body);
    if t.len() == 1 && is_ascii_alnum(t[0]) {
        Some(seq![ascii_lower(t[0])])
    } else {
        None
    }
}

/// The candidate a line yields, given how many candidates came before it.
pub open spec fn candidate_of_line(l: Seq<char>, ordinal: nat) -> Option<SiteCandidateView> {
    match chat_message(l) {
        Some((stamp, speaker, body)) => match (site_tag(body), eve_seconds(stamp)) {
            (Some(tag), Some(t)) => Some(
                SiteCandidateView {
                    speaker: trim(speaker),
                    posted_at: t,
                    tag: tag,
                    line_ordinal: ordinal as u32,
                },
            ),
            _ => None,
        },
        None => None,
    }
}

/// Candidates from `lines`, in order, numbered from zero.
pub open spec fn candidates_of(lines: Seq<Seq<char>>) -> Seq<SiteCandidateView>
    decreases lines.len(),
{
    if lines.len() == 0 {
        seq![]
    } else {
        let prev = candidates_of(lines.drop_last());
        match candidate_of_line(lines.last(), prev.len()) {
            Some(c) => prev.push(c),
            None => prev,
        }
    }
}

/// A line without the byte-order mark that may open it.
pub open spec fn drop_bom(l: Seq<char>) -> Seq<char> {
    if l.len() > 0 && l[0] == '\u{feff}' {
        l.drop_first()
    } else {
        l
    }
}

/// The lines a chat log is scanned in: live logs repeat the byte-order mark
/// on every message line.
pub open spec fn chat_lines(text: Seq<char>) -> Seq<Seq<char>> {
    nl_pieces(strip_leading(text, '\u{feff}')).map_values(|l: Seq<char>| drop_bom(l))
}

pub open spec fn candidate_views(v: Seq<SiteCandidate>) -> Seq<SiteCandidateView> {
    v.map_values(|c: SiteCandidate| c@)
}

/// `Listener: <name>` on a line (after trimming and leading byte-order marks).
pub open spec fn listener_of_line(l: Seq<char>) -> Option<Seq<char>> {
    let t = strip_leading(trim(l), '\u{feff}');
    if seq_starts_with(t, "Listener:"@) && trim(t.skip("Listener:"@.len() as int)).len() > 0 {
        Some(trim(t.skip("Listener:"@.len() as int)))
    } else {
        None
    }
}

/// The first Listener named in `lines`.
pub open spec fn listener_in(lines: Seq<Seq<char>>) -> Option<Seq<char>>
    decreases lines.len(),
{
    if lines.len() == 0 {
        None
    } else {
        match listener_of_line(lines[0]) {
            Some(n) => Some(n),
            None => listener_in(lines.drop_first()),
        }
    }
}

pub proof fn lemma_candidates_len(lines: Seq<Seq<char>>)
    ensures
        candidates_of(lines).len() <= lines.len(),
    decreases lines.len(),
{
    if lines.len() > 0 {
        lemma_candidates_len(lines.drop_last());
    }
}

pub proof fn lemma_nl_pieces_len(s: Seq<char>)
    ensures
        nl_pieces(s).len() <= s.len() + 1,
{
    crate::text::lemma_split_len(s, '\n');
}

proof fn lemma_arrow_from_step(l: Seq<char>, from: int)
    requires
        0 <= from,
        from + 3 <= l.len(),
        !arrow_at(l, from),
    ensures
        arrow_from(l, from) == arrow_from(l, from + 1),
{
}

proof fn lemma_arrow_from_ge(l: Seq<char>, from: int)
    requires
        0 <= from,
    ensures
        arrow_from(l, from) < l.len() ==> from <= arrow_from(l, from) && arrow_at(
            l,
            arrow_from(l, from),
        ),
    decreases l.len() - from,
{
    if from + 3 <= l.len() && !arrow_at(l, from) {
        lemma_arrow_from_ge(l, from + 1);
    }
}

/// Where the speaker of the message line `v[a..b]` ends, if it is one.
fn chat_speaker_end(v: &Vec<char>, a: usize, b: usize) -> (r: Option<usize>)
    requires
        a <= b <= v@.len(),
    ensures
        match r {
            Some(j) => {
                let l = v@.subrange(a as int, b as int);
                &&& chat_message(l) is Some
                &&& stamp_prefix_at(l, 0)
                &&& a + 25 <= j && j + 3 <= b
                &&& arrow_from(l, 25) == j - a
            },
            None => chat_message(v@.subrange(a as int, b as int)) is None,
        },
{
    let ghost l = v@.subrange(a as int, b as int);
    if b - a < 28 || !stamp_prefix_exec(v, a, b) {
        return None;
    }
    let mut j = a + 25;
    while j <= b - 3
        invariant
            a + 25 <= j,
            a + 28 <= b <= v@.len(),
            l == v@.subrange(a as int, b as int),
            stamp_prefix_at(l, 0),
            arrow_from(l, 25) == arrow_from(l, j - a),
        decreases b - j,
    {
        if v[j] == ' ' && v[j + 1] == '>' && v[j + 2] == ' ' {
            assert(arrow_at(l, j - a));
            return Some(j);
        }
        assert(!arrow_at(l, j - a));
        proof {
            lemma_arrow_from_step(l, j - a);
        }
        j = j + 1;
    }
    None
}

pub fn stamp_prefix_exec(v: &Vec<char>, a: usize, b: usize) -> (r: bool)
    requires
        a + 24 <= b <= v@.len(),
    ensures
        r == stamp_prefix_at(v@.subrange(a as int, b as int), 0),
{
    let ghost l = v@.subrange(a as int, b as int);
    let ghost s = l.subrange(2, 21);
    if !(v[a] == '[' && v[a + 1] == ' ' && v[a + 21] == ' ' && v[a + 22] == ']' && v[a + 23]
        == ' ') {
        return false;
    }
    let mut i: usize = 0;
    while i < 19
        invariant
            a + 24 <= b <= v@.len(),
            l == v@.subrange(a as int, b as int),
            s == l.subrange(2, 21),
            0 <= i <= 19,
            forall|k: int|
                0 <= k < i && k != 4 && k != 7 && k != 10 && k != 13 && k != 16 ==> is_digit(
                    #[trigger] s[k],
                ),
            forall|k: int| 0 <= k < i && k == 4 ==> s[k] == '.',
            forall|k: int| 0 <= k < i && k == 7 ==> s[k] == '.',
            forall|k: int| 0 <= k < i && k == 10 ==> s[k] == ' ',
            forall|k: int| 0 <= k < i && k == 13 ==> s[k] == ':',
            forall|k: int| 0 <= k < i && k == 16 ==> s[k] == ':',
        decreases 19 - i,
    {
        let c = v[a + 2 + i];
        assert(c == s[i as int]);
        let ok = if i == 4 || i == 7 {
            c == '.'
        } else if i == 10 {
            c == ' '
        } else if i == 13 || i == 16 {
            c == ':'
        } else {
            '0' <= c && c <= '9'
        };
        if !ok {
            return false;
        }
        i = i + 1;
    }
    true
}

/// The tag of a message body, if the body is one.
fn tag_of_body(v: &Vec<char>, a: usize, b: usize) -> (r: Option<String>)
    requires
        a <= b <= v@.len(),
    ensures
        match r {
            Some(t) => site_tag(v@.subrange(a as int, b as int)) == Some(t@),
            None => site_tag(v@.subrange(a as int, b as int)) is None,
        },
{
    let (x, y) = trim_range(v, a, b);
    if y - x != 1 {
        return None;
    }
    let c = v[x];
    assert(trim(v@.subrange(a as int, b as int))[0] == c);
    if ('0' <= c && c <= '9') || ('a' <= c && c <= 'z') {
        let mut s = String::new();
        push_char(&mut s, c);
        assert(s@ =~= seq![ascii_lower(c)]);
        Some(s)
    } else if 'A' <= c && c <= 'Z' {
        let code = (c as u8) + 32;
        let lower = code as char;
        assert(lower == ascii_lower(c));
        let mut s = String::new();
        push_char(&mut s, lower);
        assert(s@ =~= seq![ascii_lower(c)]);
        Some(s)
    } else {
        None
    }
}

/// Parse fleet chatlog text into stacked site tag candidates, numbered in
/// order of appearance.
pub fn parse_site_candidates(text: &str) -> (r: Vec<SiteCandidate>)
    requires
        text@.len() < u32::MAX,
    ensures
        candidate_views(r@) == candidates_of(chat_lines(text@)),
{
    let v = chars_of(text);
    let start = skip_leading(&v, 0, v.len(), '\u{feff}');
    let ranges = nl_piece_ranges(&v, start, v.len());
    let ghost lines = chat_lines(text@);
    proof {
        assert(v@.subrange(0, v@.len() as int) =~= v@);
        lemma_nl_pieces_len(v@.subrange(start as int, v@.len() as int));
    }
    let mut out: Vec<SiteCandidate> = Vec::new();
    let mut ordinal: u32 = 0;
    let mut i: usize = 0;
    assert(lines =~= range_texts(v@, ranges@).map_values(|l: Seq<char>| drop_bom(l)));
    while i < ranges.len()
        invariant
            lines == range_texts(v@, ranges@).map_values(|l: Seq<char>| drop_bom(l)),
            ranges_within(ranges@, v@.len() as int),
            ranges@.len() <= v@.len() + 1,
            v@.len() < u32::MAX,
            0 <= i <= ranges@.len(),
            ordinal == out@.len(),
            candidate_views(out@) == candidates_of(lines.take(i as int)),
        decreases ranges@.len() - i,
    {
        let (a0, b) = ranges[i];
        let a = if a0 < b && v[a0] == '\u{feff}' {
            a0 + 1
        } else {
            a0
        };
        let ghost l = v@.subrange(a as int, b as int);
        assert(drop_bom(v@.subrange(a0 as int, b as int)) =~= l);
        assert(lines[i as int] == l);
        assert(lines.take(i + 1).drop_last() =~= lines.take(i as int));
        assert(lines.take(i + 1).last() == l);
        proof {
            lemma_candidates_len(lines.take(i as int));
        }
        if let Some(j) = chat_speaker_end(&v, a, b) {
            assert(l.subrange(2, 21) =~= v@.subrange(a + 2, a + 21));
            assert(l.subrange(24, j - a) =~= v@.subrange(a + 24, j as int));
            assert(l.subrange(j - a + 3, l.len() as int) =~= v@.subrange(j + 3, b as int));
            if let Some(tag) = tag_of_body(&v, j + 3, b) {
                let stamp = string_of(&v, a + 2, a + 21);
                if let Some(t) = parse_eve_seconds(&stamp) {
                    let (sa, sb) = trim_range(&v, a + 24, j);
                    let speaker = string_of(&v, sa, sb);
                    let c = SiteCandidate { speaker, posted_at: t, tag, line_ordinal: ordinal };
                    out.push(c);
                    assert(candidate_views(out@) =~= candidate_views(out@.drop_last()).push(c@));
                    ordinal = ordinal + 1;
                }
            }
        }
        i = i + 1;
    }
    assert(lines.take(ranges@.len() as int) =~= lines);
    out
}

/// The first line index at or after `from` whose Listener header names someone.
fn listener_scan(v: &Vec<char>, ranges: &Vec<(usize, usize)>) -> (r: Option<String>)
    requires
        ranges_within(ranges@, v@.len() as int),
    ensures
        match r {
            Some(n) => listener_in(range_texts(v@, ranges@)) == Some(n@),
            None => listener_in(range_texts(v@, ranges@)) is None,
        },
{
    let ghost lines = range_texts(v@, ranges@);
    let key = chars_of("Listener:");
    assert(lines.skip(0) =~= lines);
    let mut i: usize = 0;
    while i < ranges.len()
        invariant
            lines == range_texts(v@, ranges@),
            ranges_within(ranges@, v@.len() as int),
            key@ == "Listener:"@,
            0 <= i <= ranges@.len(),
            listener_in(lines) == listener_in(lines.skip(i as int)),
        decreases ranges@.len() - i,
    {
        let (a, b) = ranges[i];
        let ghost l = v@.subrange(a as int, b as int);
        assert(lines[i as int] == l);
        assert(lines.skip(i as int)[0] == l);
        assert(lines.skip(i as int).drop_first() =~= lines.skip(i + 1));
        let (ta, tb) = trim_range(&v, a, b);
        let s = skip_leading(&v, ta, tb, '\u{feff}');
        let ghost t = strip_leading(trim(l), '\u{feff}');
        assert(t =~= v@.subrange(s as int, tb as int));
        if matches_at(&v, s, tb, &key) {
            let (na, nb) = trim_range(&v, s + key.len(), tb);
            assert(t.skip(key@.len() as int) =~= v@.subrange(s + key@.len(), tb as int));
            assert(t.take(key@.len() as int) =~= v@.subrange(s as int, s + key@.len()));
            if nb > na {
                return Some(string_of(&v, na, nb));
            }
        } else {
            assert(!seq_starts_with(t, key@)) by {
                if seq_starts_with(t, key@) {
                    assert(t.subrange(0, key@.len() as int) =~= v@.subrange(s as int, s + key@.len()));
                }
            }
        }
        i = i + 1;
    }
    None
}

/// Extract the Listener name from an EVE log header, if present.
pub fn parse_listener(text: &str) -> (r: Option<String>)
    ensures
        match r {
            Some(n) => listener_in(str_lines(text@)) == Some(n@),
            None => listener_in(str_lines(text@)) is None,
        },
{
    let v = chars_of(text);
    let ranges = line_ranges(&v, 0, v.len());
    assert(v@.subrange(0, v@.len() as int) =~= v@);
    listener_scan(&v, &ranges)
}


/// The first ` > ` at or after `from` is at `j` when none starts in
/// `[from, j)` and one starts at `j`.
proof fn lemma_arrow_from_at(l: Seq<char>, from: int, j: int)
    requires
        0 <= from <= j,
        arrow_at(l, j),
        forall|k: int| from <= k < j ==> !arrow_at(l, k),
    ensures
        arrow_from(l, from) == j,
    decreases j - from,
{
    if from < j {
        lemma_arrow_from_at(l, from + 1, j);
    }
}

/// The speaker of a tag line is the trimmed text between `] ` and the first
/// ` > ` after it, and the tag is the lower-cased single letter or digit of
/// the body: on `[ <stamp> ] <speaker> > <body>`, where no ` > ` starts
/// inside the speaker, the candidate has that speaker, the stamp's time and
/// the body's tag.
pub proof fn law_tag_line_speaker_and_tag(
    stamp: Seq<char>,
    speaker: Seq<char>,
    body: Seq<char>,
    t: i64,
    c: char,
    ordinal: nat,
)
    requires
        ts_shape(stamp),
        eve_seconds(stamp) == Some(t),
        speaker.len() > 0,
        forall|k: int|
            25 <= k < 24 + speaker.len() ==> !arrow_at(
                "[ "@ + stamp + " ] "@ + speaker + " > "@ + body,
                k,
            ),
        trim(body) == seq![c],
        is_ascii_alnum(c),
        ordinal <= u32::MAX,
    ensures
        candidate_of_line("[ "@ + stamp + " ] "@ + speaker + " > "@ + body, ordinal) == Some(
            SiteCandidateView {
                speaker: trim(speaker),
                posted_at: t,
                tag: seq![ascii_lower(c)],
                line_ordinal: ordinal as u32,
            },
        ),
{
    reveal_strlit("[ ");
    reveal_strlit(" ] ");
    reveal_strlit(" > ");
    let l = "[ "@ + stamp + " ] "@ + speaker + " > "@ + body;
    let j: int = 24 + speaker.len() as int;
    assert(l.subrange(2, 21) =~= stamp);
    assert(l.subrange(24, j) =~= speaker);
    assert(l.subrange(j + 3, l.len() as int) =~= body);
    assert(l[0] == '[' && l[1] == ' ' && l[21] == ' ' && l[22] == ']' && l[23] == ' ');
    assert(stamp_prefix_at(l, 0));
    assert(l[j] == ' ' && l[j + 1] == '>' && l[j + 2] == ' ');
    assert(arrow_at(l, j));
    lemma_arrow_from_at(l, 25, j);
    assert(arrow_from(l, 25) == j);
}

} // verus!
