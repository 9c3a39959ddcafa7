//! Labeled fields of a Kundalini Manifest–style incursion spawn notice.

use vstd::prelude::*;
use crate::clock::{naive_date, naive_date_time, parse_date, parse_date_time, valid_ts};
use crate::numbers::{parse_u32_range, u32_text};
use crate::site_id::{decimal, decimal_string};
use crate::parse::is_digit;
use crate::text::{
    chars_eq_str, chars_of, contains_in, drop_while, find_char, find_in, find_ws, first_index,
    first_ws, has_char, line_ranges, matches_at, piece_ranges, range_texts, seq_contains,
    seq_starts_with, skip_leading, skip_ws, slice_chars, split_on, str_lines, string_of,
    strip_leading, trim, trim_range, ws_pred, find_seq,
};

verus! {

/// What a pasted Manifest says about a spawn; `announced_at` is UTC seconds.
#[derive(Debug, Clone, PartialEq, Eq)]
pub struct SpawnDraft {
    pub constellation: Option<String>,
    pub region: Option<String>,
    pub security_status: Option<String>,
    pub sov_holder: Option<String>,
    pub staging_system: Option<String>,
    pub hq_system: Option<String>,
    pub assault_systems: Vec<String>,
    pub vanguard_systems: Vec<String>,
    pub announced_at: Option<i64>,
    pub title: Option<String>,
}

pub ghost struct DraftView {
    pub constellation: Option<Seq<char>>,
    pub region: Option<Seq<char>>,
    pub security_status: Option<Seq<char>>,
    pub sov_holder: Option<Seq<char>>,
    pub staging_system: Option<Seq<char>>,
    pub hq_system: Option<Seq<char>>,
    pub assault_systems: Seq<Seq<char>>,
    pub vanguard_systems: Seq<Seq<char>>,
    pub announced_at: Option<i64>,
    pub title: Option<Seq<char>>,
}

pub open spec fn opt_text(o: Option<String>) -> Option<Seq<char>> {
    match o {
        Some(s) => Some(s@),
        None => None,
    }
}

pub open spec fn texts(v: Seq<String>) -> Seq<Seq<char>> {
    v.map_values(|s: String| s@)
}

impl View for SpawnDraft {
    type V = DraftView;

    open spec fn view(&self) -> DraftView {
        DraftView {
            constellation: opt_text(self.constellation),
            region: opt_text(self.region),
            security_status: opt_text(self.security_status),
            sov_holder: opt_text(self.sov_holder),
            staging_system: opt_text(self.staging_system),
            hq_system: opt_text(self.hq_system),
            assault_systems: texts(self.assault_systems@),
            vanguard_systems: texts(self.vanguard_systems@),
            announced_at: self.announced_at,
            title: opt_text(self.title),
        }
    }
}

impl Default for SpawnDraft {
    fn default() -> (r: Self)
        ensures
            r@ == empty_draft(),
    {
        let r = SpawnDraft {
            constellation: None,
            region: None,
            security_status: None,
            sov_holder: None,
            staging_system: None,
            hq_system: None,
            assault_systems: Vec::new(),
            vanguard_systems: Vec::new(),
            announced_at: None,
            title: None,
        };
        assert(texts(r.assault_systems@) =~= Seq::<Seq<char>>::empty());
        assert(texts(r.vanguard_systems@) =~= Seq::<Seq<char>>::empty());
        r
    }
}

pub open spec fn empty_draft() -> DraftView {
    DraftView {
        constellation: None,
        region: None,
        security_status: None,
        sov_holder: None,
        staging_system: None,
        hq_system: None,
        assault_systems: seq![],
        vanguard_systems: seq![],
        announced_at: None,
        title: None,
    }
}

// ---------------------------------------------------------------- dates

/// `n` in decimal, zero-padded to two digits (`{n:02}`).
pub open spec fn pad2(n: u32) -> Seq<char> {
    if n < 10 {
        seq!['0'] + decimal(n as nat)
    } else {
        decimal(n as nat)
    }
}

/// `m/d/y` with month and day zero-padded to two digits; the year is the
/// third `/` piece as written.
pub open spec fn us_date_padded(s: Seq<char>) -> Option<Seq<char>> {
    let parts = split_on(s, '/');
    if parts.len() >= 3 {
        match (u32_text(parts[0]), u32_text(parts[1])) {
            (Some(m), Some(d)) => Some(pad2(m) + "/"@ + pad2(d) + "/"@ + parts[2]),
            _ => None,
        }
    } else {
        None
    }
}

/// `m/d/y h:mm [AM]` with month, day and hour zero-padded: the date before
/// the first space, then the first two whitespace-separated words after it.
pub open spec fn us_datetime_padded(s: Seq<char>) -> Option<Seq<char>> {
    let sp = first_index(s, ' ');
    if sp >= s.len() {
        None
    } else {
        match us_date_padded(s.take(sp as int)) {
            None => None,
            Some(date) => {
                let rest = trim(s.skip(sp as int + 1));
                if rest.len() == 0 {
                    None
                } else {
                    let k = first_ws(rest);
                    let hm = rest.take(k as int);
                    let after = drop_while(rest.skip(k as int), ws_pred());
                    let ampm = after.take(first_ws(after) as int);
                    let c = first_index(hm, ':');
                    if c >= hm.len() {
                        None
                    } else {
                        match (u32_text(hm.take(c as int)), u32_text(hm.skip(c as int + 1))) {
                            (Some(h), Some(m)) => Some(
                                date + " "@ + pad2(h) + ":"@ + pad2(m) + if ampm.len() == 0 {
                                    Seq::<char>::empty()
                                } else {
                                    " "@ + ampm
                                },
                            ),
                            _ => None,
                        }
                    }
                }
            },
        }
    }
}

/// The text a date line is read from: trimmed, without leading em dashes,
/// trimmed, without leading hyphens, trimmed.
pub open spec fn announced_text(s: Seq<char>) -> Seq<char> {
    trim(strip_leading(trim(strip_leading(trim(s), '\u{2014}')), '-'))
}

/// The announcement time of a line: the US and EVE date-time formats, then
/// the same with month, day and hour zero-padded, then a US date alone (as
/// written, then padded) at midnight.
pub open spec fn announced_of(s: Seq<char>) -> Option<i64> {
    let t = announced_text(s);
    if naive_date_time(t, "%m/%d/%Y %I:%M %p"@) is Some {
        naive_date_time(t, "%m/%d/%Y %I:%M %p"@)
    } else if naive_date_time(t, "%m/%d/%Y %H:%M"@) is Some {
        naive_date_time(t, "%m/%d/%Y %H:%M"@)
    } else if naive_date_time(t, "%Y.%m.%d %H:%M"@) is Some {
        naive_date_time(t, "%Y.%m.%d %H:%M"@)
    } else {
        match us_datetime_padded(t) {
            None => None,
            Some(p) => if naive_date_time(p, "%m/%d/%Y %I:%M %p"@) is Some {
                naive_date_time(p, "%m/%d/%Y %I:%M %p"@)
            } else if naive_date_time(p, "%m/%d/%Y %H:%M"@) is Some {
                naive_date_time(p, "%m/%d/%Y %H:%M"@)
            } else if naive_date(t, "%m/%d/%Y"@) is Some {
                naive_date(t, "%m/%d/%Y"@)
            } else {
                match us_date_padded(t) {
                    Some(q) => naive_date(q, "%m/%d/%Y"@),
                    None => None,
                }
            },
        }
    }
}

fn pad2_string(n: u32) -> (r: String)
    ensures
        r@ == pad2(n),
{
    if n < 10 {
        let mut s = String::from_str("0");
        let d = decimal_string(n as u64);
        s.append(d.as_str());
        proof {
            reveal_strlit("0");
        }
        assert(s@ =~= pad2(n));
        s
    } else {
        decimal_string(n as u64)
    }
}

/// `us_date_padded` of `v[lo..hi]`.
fn pad_us_date_in(v: &Vec<char>, lo: usize, hi: usize) -> (r: Option<String>)
    requires
        lo <= hi <= v@.len(),
    ensures
        opt_text(r) == us_date_padded(v@.subrange(lo as int, hi as int)),
{
    let pieces = piece_ranges(v, lo, hi, '/');
    let ghost parts = split_on(v@.subrange(lo as int, hi as int), '/');
    assert(range_texts(v@, pieces@) == parts);
    if pieces.len() < 3 {
        return None;
    }
    let p0 = pieces[0];
    let p1 = pieces[1];
    let p2 = pieces[2];
    assert(parts[0] == v@.subrange(p0.0 as int, p0.1 as int));
    assert(parts[1] == v@.subrange(p1.0 as int, p1.1 as int));
    assert(parts[2] == v@.subrange(p2.0 as int, p2.1 as int));
    let m = match parse_u32_range(v, p0.0, p0.1) {
        Some(x) => x,
        None => return None,
    };
    let d = match parse_u32_range(v, p1.0, p1.1) {
        Some(x) => x,
        None => return None,
    };
    let mut s = pad2_string(m);
    s.append("/");
    let ds = pad2_string(d);
    s.append(ds.as_str());
    s.append("/");
    let y = string_of(v, p2.0, p2.1);
    s.append(y.as_str());
    Some(s)
}

/// `us_datetime_padded` of `v[lo..hi]`.
fn pad_us_datetime_in(v: &Vec<char>, lo: usize, hi: usize) -> (r: Option<String>)
    requires
        lo <= hi <= v@.len(),
    ensures
        opt_text(r) == us_datetime_padded(v@.subrange(lo as int, hi as int)),
{
    let ghost s = v@.subrange(lo as int, hi as int);
    let sp = find_char(v, lo, hi, ' ');
    if sp == hi {
        return None;
    }
    assert(s.take(sp - lo) =~= v@.subrange(lo as int, sp as int));
    assert(s.skip(sp - lo + 1) =~= v@.subrange(sp + 1, hi as int));
    let date = match pad_us_date_in(v, lo, sp) {
        Some(x) => x,
        None => return None,
    };
    let (ra, rb) = trim_range(v, sp + 1, hi);
    if ra == rb {
        return None;
    }
    let ghost rest = v@.subrange(ra as int, rb as int);
    let k = find_ws(v, ra, rb);
    assert(rest.take(k - ra) =~= v@.subrange(ra as int, k as int));
    assert(rest.skip(k - ra) =~= v@.subrange(k as int, rb as int));
    let a2 = skip_ws(v, k, rb);
    let k2 = find_ws(v, a2, rb);
    let ghost after = v@.subrange(a2 as int, rb as int);
    assert(after.take(k2 - a2) =~= v@.subrange(a2 as int, k2 as int));
    let c = find_char(v, ra, k, ':');
    if c == k {
        return None;
    }
    let ghost hm = v@.subrange(ra as int, k as int);
    assert(hm.take(c - ra) =~= v@.subrange(ra as int, c as int));
    assert(hm.skip(c - ra + 1) =~= v@.subrange(c + 1, k as int));
    let h = match parse_u32_range(v, ra, c) {
        Some(x) => x,
        None => return None,
    };
    let m = match parse_u32_range(v, c + 1, k) {
        Some(x) => x,
        None => return None,
    };
    let mut out = date;
    out.append(" ");
    let hs = pad2_string(h);
    out.append(hs.as_str());
    out.append(":");
    let ms = pad2_string(m);
    out.append(ms.as_str());
    if a2 < k2 {
        out.append(" ");
        let ampm = string_of(v, a2, k2);
        out.append(ampm.as_str());
    } else {
        assert(out@ + Seq::<char>::empty() =~= out@);
    }
    Some(out)
}

/// Pads a US date's month and day to two digits: `7/8/2026` → `07/08/2026`.
pub fn pad_us_date(s: &str) -> (r: Option<String>)
    ensures
        opt_text(r) == us_date_padded(s@),
{
    let v = chars_of(s);
    assert(v@.subrange(0, v@.len() as int) =~= s@);
    pad_us_date_in(&v, 0, v.len())
}

/// Pads a US date-time's month, day and hour to two digits:
/// `7/28/2026 5:41 AM` → `07/28/2026 05:41 AM`.
pub fn pad_us_datetime(s: &str) -> (r: Option<String>)
    ensures
        opt_text(r) == us_datetime_padded(s@),
{
    let v = chars_of(s);
    assert(v@.subrange(0, v@.len() as int) =~= s@);
    pad_us_datetime_in(&v, 0, v.len())
}

/// The announcement time of the line `v` (`announced_of`).
pub fn parse_announced(v: &Vec<char>) -> (r: Option<i64>)
    ensures
        r == announced_of(v@),
        r matches Some(t) ==> valid_ts(t as int),
{
    let (a0, b0) = trim_range(v, 0, v.len());
    assert(v@.subrange(0, v@.len() as int) =~= v@);
    let a1 = skip_leading(v, a0, b0, '\u{2014}');
    let (a2, b2) = trim_range(v, a1, b0);
    let a3 = skip_leading(v, a2, b2, '-');
    let (a4, b4) = trim_range(v, a3, b2);
    let t = string_of(v, a4, b4);
    assert(t@ == announced_text(v@));
    if let Some(x) = parse_date_time(t.as_str(), "%m/%d/%Y %I:%M %p") {
        return Some(x);
    }
    if let Some(x) = parse_date_time(t.as_str(), "%m/%d/%Y %H:%M") {
        return Some(x);
    }
    if let Some(x) = parse_date_time(t.as_str(), "%Y.%m.%d %H:%M") {
        return Some(x);
    }
    let padded = match pad_us_datetime_in(v, a4, b4) {
        Some(p) => p,
        None => return None,
    };
    if let Some(x) = parse_date_time(padded.as_str(), "%m/%d/%Y %I:%M %p") {
        return Some(x);
    }
    if let Some(x) = parse_date_time(padded.as_str(), "%m/%d/%Y %H:%M") {
        return Some(x);
    }
    if let Some(x) = parse_date(t.as_str(), "%m/%d/%Y") {
        return Some(x);
    }
    match pad_us_date_in(v, a4, b4) {
        Some(q) => parse_date(q.as_str(), "%m/%d/%Y"),
        None => None,
    }
}


// ---------------------------------------------------------------- lines

/// A Manifest line as the parser reads it: trimmed, without leading
/// byte-order marks.
pub open spec fn clean_line(l: Seq<char>) -> Seq<char> {
    strip_leading(trim(l), '\u{feff}')
}

/// The non-empty cleaned lines of `ls`.
pub open spec fn manifest_lines(ls: Seq<Seq<char>>) -> Seq<Seq<char>>
    decreases ls.len(),
{
    if ls.len() == 0 {
        seq![]
    } else {
        let p = manifest_lines(ls.drop_last());
        let c = clean_line(ls.last());
        if c.len() > 0 {
            p.push(c)
        } else {
            p
        }
    }
}

pub open spec fn lines_view(v: Seq<Vec<char>>) -> Seq<Seq<char>> {
    v.map_values(|l: Vec<char>| l@)
}

/// The non-empty cleaned lines of `text`.
fn manifest_line_vecs(text: &str) -> (r: Vec<Vec<char>>)
    ensures
        lines_view(r@) == manifest_lines(str_lines(text@)),
{
    let v = chars_of(text);
    let ranges = line_ranges(&v, 0, v.len());
    assert(v@.subrange(0, v@.len() as int) =~= v@);
    let ghost ls = range_texts(v@, ranges@);
    assert(ls == str_lines(text@));
    let mut out: Vec<Vec<char>> = Vec::new();
    let mut i: usize = 0;
    while i < ranges.len()
        invariant
            0 <= i <= ranges@.len(),
            ls == range_texts(v@, ranges@),
            crate::text::ranges_within(ranges@, v@.len() as int),
            lines_view(out@) == manifest_lines(ls.take(i as int)),
        decreases ranges@.len() - i,
    {
        let (a, b) = ranges[i];
        assert(ls.take(i + 1).drop_last() =~= ls.take(i as int));
        assert(ls.take(i + 1).last() == v@.subrange(a as int, b as int));
        let (ta, tb) = trim_range(&v, a, b);
        let sa = skip_leading(&v, ta, tb, '\u{feff}');
        if sa < tb {
            let ghost before = out@;
            out.push(slice_chars(&v, sa, tb));
            assert(lines_view(out@) =~= lines_view(before).push(v@.subrange(sa as int, tb as int)));
        }
        i = i + 1;
    }
    assert(ls.take(ranges@.len() as int) =~= ls);
    out
}

// ---------------------------------------------------------------- header

pub open spec fn title_of(ls: Seq<Seq<char>>) -> Option<Seq<char>> {
    if ls.len() > 0 && !ls[0].contains(':') && ls[0] != "Region"@ && ls[0] != "Constellation"@
        && ls[0] != "APP"@ {
        Some(ls[0])
    } else {
        None
    }
}

/// What follows a "New … Incursion:" announcement prefix.
pub open spec fn incursion_rest(l: Seq<char>) -> Option<Seq<char>> {
    if seq_starts_with(l, "New Null-Sec Incursion:"@) {
        Some(l.skip("New Null-Sec Incursion:"@.len() as int))
    } else if seq_starts_with(l, "New Low-Sec Incursion:"@) {
        Some(l.skip("New Low-Sec Incursion:"@.len() as int))
    } else if seq_starts_with(l, "New High-Sec Incursion:"@) {
        Some(l.skip("New High-Sec Incursion:"@.len() as int))
    } else {
        None
    }
}

/// One line's effect on constellation, region and announcement time: an
/// announcement prefix names `constellation - region` (or the constellation
/// alone); a line that reads as a date sets the announcement time.
pub open spec fn header_line(d: DraftView, line: Seq<char>) -> DraftView {
    let d1 = match incursion_rest(line) {
        Some(rest) => {
            let r = trim(rest);
            match find_seq(r, " - "@) {
                Some(k) => DraftView {
                    constellation: Some(trim(r.take(k))),
                    region: Some(trim(r.skip(k + 3))),
                    ..d
                },
                None => if r.len() > 0 {
                    DraftView { constellation: Some(r), ..d }
                } else {
                    d
                },
            }
        },
        None => d,
    };
    match announced_of(line) {
        Some(t) => DraftView { announced_at: Some(t), ..d1 },
        None => d1,
    }
}

pub open spec fn header_scan(ls: Seq<Seq<char>>) -> DraftView
    decreases ls.len(),
{
    if ls.len() == 0 {
        empty_draft()
    } else {
        header_line(header_scan(ls.drop_last()), ls.last())
    }
}

proof fn lemma_header_title(ls: Seq<Seq<char>>)
    ensures
        header_scan(ls).title is None,
    decreases ls.len(),
{
    if ls.len() > 0 {
        lemma_header_title(ls.drop_last());
    }
}

fn parse_lit(lit: &str) -> (r: Vec<char>)
    ensures
        r@ == lit@,
{
    chars_of(lit)
}

/// Start of the text after an announcement prefix of `l`.
fn incursion_rest_start(l: &Vec<char>) -> (r: Option<usize>)
    ensures
        match r {
            Some(k) => k <= l@.len() && incursion_rest(l@) == Some(l@.skip(k as int)),
            None => incursion_rest(l@) is None,
        },
{
    let p1 = parse_lit("New Null-Sec Incursion:");
    let p2 = parse_lit("New Low-Sec Incursion:");
    let p3 = parse_lit("New High-Sec Incursion:");
    assert(l@.subrange(0, l@.len() as int) =~= l@);
    if matches_at(l, 0, l.len(), &p1) {
        assert(seq_starts_with(l@, p1@));
        return Some(p1.len());
    }
    assert(!seq_starts_with(l@, p1@)) by {
        if seq_starts_with(l@, p1@) {
            assert(l@.subrange(0, p1@.len() as int) == p1@);
        }
    }
    if matches_at(l, 0, l.len(), &p2) {
        return Some(p2.len());
    }
    assert(!seq_starts_with(l@, p2@)) by {
        if seq_starts_with(l@, p2@) {
            assert(l@.subrange(0, p2@.len() as int) == p2@);
        }
    }
    if matches_at(l, 0, l.len(), &p3) {
        return Some(p3.len());
    }
    assert(!seq_starts_with(l@, p3@)) by {
        if seq_starts_with(l@, p3@) {
            assert(l@.subrange(0, p3@.len() as int) == p3@);
        }
    }
    None
}

fn apply_header_line(d: &mut SpawnDraft, l: &Vec<char>)
    ensures
        final(d)@ == header_line(old(d)@, l@),
{
    let ghost d0 = d@;
    if let Some(start) = incursion_rest_start(l) {
        let (ra, rb) = trim_range(l, start, l.len());
        assert(l@.subrange(start as int, l@.len() as int) =~= l@.skip(start as int));
        let ghost r = l@.subrange(ra as int, rb as int);
        let sep = parse_lit(" - ");
        proof {
            reveal_strlit(" - ");
        }
        assert(sep@.len() == 3);
        match find_in(l, ra, rb, &sep) {
            Some(k) => {
                let (ca, cb) = trim_range(l, ra, k);
                assert(r.take(k - ra) =~= l@.subrange(ra as int, k as int));
                let (ga, gb) = trim_range(l, k + 3, rb);
                assert(r.skip(k - ra + 3) =~= l@.subrange(k + 3, rb as int));
                d.constellation = Some(string_of(l, ca, cb));
                d.region = Some(string_of(l, ga, gb));
            },
            None => {
                if ra < rb {
                    d.constellation = Some(string_of(l, ra, rb));
                }
            },
        }
    }
    let ghost d1 = d@;
    assert(d1 == ({
        let dd = d0;
        match incursion_rest(l@) {
            Some(rest) => {
                let r = trim(rest);
                match find_seq(r, " - "@) {
                    Some(k) => DraftView {
                        constellation: Some(trim(r.take(k))),
                        region: Some(trim(r.skip(k + 3))),
                        ..dd
                    },
                    None => if r.len() > 0 {
                        DraftView { constellation: Some(r), ..dd }
                    } else {
                        dd
                    },
                }
            },
            None => dd,
        }
    }));
    if let Some(t) = parse_announced(l) {
        d.announced_at = Some(t);
    }
}


// ---------------------------------------------------------------- labels

pub open spec fn is_ascii_alpha(c: char) -> bool {
    ('a' <= c && c <= 'z') || ('A' <= c && c <= 'Z')
}

/// A line that ends an assault-system list.
pub open spec fn ends_assault(sys: Seq<char>) -> bool {
    ||| sys == "Vanguard Systems"@
    ||| sys == "Region"@
    ||| sys == "Constellation"@
    ||| sys == "HQ System"@
    ||| sys == "Staging System"@
    ||| seq_contains(sys, "Incursion:"@)
}

/// No ASCII letter besides `A`, `M` and `P` (a date line such as
/// `7/28/2026 5:41 AM`).
pub open spec fn only_am_pm_letters(sys: Seq<char>) -> bool {
    forall|i: int|
        0 <= i < sys.len() ==> !(is_ascii_alpha(#[trigger] sys[i]) && sys[i] != 'A' && sys[i] != 'M'
            && sys[i] != 'P')
}

/// A system name has a hyphen or a digit (`F76-8Q`, `X-6WC7`).
pub open spec fn looks_like_system(sys: Seq<char>) -> bool {
    sys.contains('-') || exists|i: int| 0 <= i < sys.len() && is_digit(#[trigger] sys[i])
}

/// The assault systems from line `k` on, and the line the scan ended on:
/// the line before a label that ends the list, or the first line that is a
/// date or does not look like a system name.
pub open spec fn assault_scan(ls: Seq<Seq<char>>, k: int) -> (int, Seq<Seq<char>>)
    decreases ls.len() - k,
{
    if k < 0 || k >= ls.len() {
        (k, seq![])
    } else {
        let sys = ls[k];
        if ends_assault(sys) {
            (k - 1, seq![])
        } else if announced_of(sys) is Some && only_am_pm_letters(sys) {
            (k, seq![])
        } else if looks_like_system(sys) && announced_of(sys) is None {
            let (j, rest) = assault_scan(ls, k + 1);
            (j, seq![sys] + rest)
        } else {
            (k, seq![])
        }
    }
}

/// The vanguard systems from line `k` on, and the line the scan ended on: a
/// date line, or the line before a label that ends the list.
pub open spec fn vanguard_scan(ls: Seq<Seq<char>>, k: int) -> (int, Seq<Seq<char>>)
    decreases ls.len() - k,
{
    if k < 0 || k >= ls.len() {
        (k, seq![])
    } else {
        let sys = ls[k];
        if announced_of(sys) is Some {
            (k, seq![])
        } else if sys == "Region"@ || sys == "Constellation"@ || sys == "Assault System(s)"@ {
            (k - 1, seq![])
        } else {
            let (j, rest) = vanguard_scan(ls, k + 1);
            (j, seq![sys] + rest)
        }
    }
}

/// The label at line `i`: the fields it fills from the lines after it, and
/// the last line it used.
pub open spec fn label_step(ls: Seq<Seq<char>>, i: int, d: DraftView) -> (int, DraftView) {
    let label = ls[i];
    let has_next = i + 1 < ls.len();
    let next = ls[i + 1];
    if label == "Region"@ {
        if has_next && !next.contains(':') {
            (i + 1, DraftView { region: Some(next), ..d })
        } else {
            (i, d)
        }
    } else if label == "Constellation"@ {
        if has_next {
            (i + 1, DraftView { constellation: Some(next), ..d })
        } else {
            (i, d)
        }
    } else if label == "Security Status"@ {
        if has_next {
            (i + 1, DraftView { security_status: Some(next), ..d })
        } else {
            (i, d)
        }
    } else if label == "Sov Holder"@ {
        if has_next {
            (i + 1, DraftView { sov_holder: Some(next), ..d })
        } else {
            (i, d)
        }
    } else if label == "Staging System"@ {
        if has_next {
            (i + 1, DraftView { staging_system: Some(next), ..d })
        } else {
            (i, d)
        }
    } else if label == "HQ System"@ {
        if has_next {
            (i + 1, DraftView { hq_system: Some(next), ..d })
        } else {
            (i, d)
        }
    } else if label == "Assault System(s)"@ {
        let (j, sys) = assault_scan(ls, i + 1);
        (j, DraftView { assault_systems: d.assault_systems + sys, ..d })
    } else if label == "Vanguard Systems"@ {
        let (j, sys) = vanguard_scan(ls, i + 1);
        (j, DraftView { vanguard_systems: d.vanguard_systems + sys, ..d })
    } else {
        (i, d)
    }
}

pub proof fn lemma_assault_end(ls: Seq<Seq<char>>, k: int)
    requires
        0 <= k <= ls.len(),
    ensures
        assault_scan(ls, k).0 >= k - 1,
        assault_scan(ls, k).0 <= ls.len(),
    decreases ls.len() - k,
{
    if k < ls.len() {
        lemma_assault_end(ls, k + 1);
    }
}

pub proof fn lemma_vanguard_end(ls: Seq<Seq<char>>, k: int)
    requires
        0 <= k <= ls.len(),
    ensures
        vanguard_scan(ls, k).0 >= k - 1,
        vanguard_scan(ls, k).0 <= ls.len(),
    decreases ls.len() - k,
{
    if k < ls.len() {
        lemma_vanguard_end(ls, k + 1);
    }
}

pub proof fn lemma_label_step_end(ls: Seq<Seq<char>>, i: int, d: DraftView)
    requires
        0 <= i < ls.len(),
    ensures
        i <= label_step(ls, i, d).0 <= ls.len(),
{
    lemma_assault_end(ls, i + 1);
    lemma_vanguard_end(ls, i + 1);
}

/// The labeled fields from line `i` on.
pub open spec fn label_scan(ls: Seq<Seq<char>>, i: int, d: DraftView) -> DraftView
    decreases ls.len() + 1 - i,
{
    if i < 0 || i >= ls.len() {
        d
    } else {
        let step = label_step(ls, i, d);
        proof {
            lemma_label_step_end(ls, i, d);
        }
        label_scan(ls, step.0 + 1, step.1)
    }
}

/// The draft of a Manifest: the title line, the announcement line(s), then
/// the labeled fields, which win over what an announcement line said.
pub open spec fn manifest_of(text: Seq<char>) -> DraftView {
    let ls = manifest_lines(str_lines(text));
    label_scan(ls, 0, DraftView { title: title_of(ls), ..header_scan(ls) })
}

fn line_is(lines: &Vec<Vec<char>>, k: usize, lit: &str) -> (r: bool)
    requires
        k < lines@.len(),
    ensures
        r == (lines@[k as int]@ == lit@),
{
    crate::text::chars_eq_str(&lines[k], lit)
}

fn contains_lit(l: &Vec<char>, lit: &str) -> (r: bool)
    ensures
        r == seq_contains(l@, lit@),
{
    let p = parse_lit(lit);
    assert(l@.subrange(0, l@.len() as int) =~= l@);
    contains_in(l, 0, l.len(), &p)
}

fn ends_assault_exec(l: &Vec<char>) -> (r: bool)
    ensures
        r == ends_assault(l@),
{
    crate::text::chars_eq_str(l, "Vanguard Systems") || crate::text::chars_eq_str(l, "Region")
        || crate::text::chars_eq_str(l, "Constellation") || crate::text::chars_eq_str(l, "HQ System")
        || crate::text::chars_eq_str(l, "Staging System") || contains_lit(l, "Incursion:")
}

fn only_am_pm_letters_exec(l: &Vec<char>) -> (r: bool)
    ensures
        r == only_am_pm_letters(l@),
{
    let mut i: usize = 0;
    while i < l.len()
        invariant
            0 <= i <= l@.len(),
            forall|j: int|
                0 <= j < i ==> !(is_ascii_alpha(#[trigger] l@[j]) && l@[j] != 'A' && l@[j] != 'M'
                    && l@[j] != 'P'),
        decreases l@.len() - i,
    {
        let c = l[i];
        if (('a' <= c && c <= 'z') || ('A' <= c && c <= 'Z')) && c != 'A' && c != 'M' && c != 'P' {
            return false;
        }
        i = i + 1;
    }
    true
}

fn looks_like_system_exec(l: &Vec<char>) -> (r: bool)
    ensures
        r == looks_like_system(l@),
{
    if has_char(l, '-') {
        return true;
    }
    let mut i: usize = 0;
    while i < l.len()
        invariant
            0 <= i <= l@.len(),
            !l@.contains('-'),
            forall|j: int| 0 <= j < i ==> !is_digit(#[trigger] l@[j]),
        decreases l@.len() - i,
    {
        let c = l[i];
        if '0' <= c && c <= '9' {
            assert(is_digit(l@[i as int]));
            return true;
        }
        i = i + 1;
    }
    false
}

/// `assault_scan` from line `k0`, as (end line, systems).
fn scan_assault(lines: &Vec<Vec<char>>, k0: usize) -> (r: (usize, Vec<String>))
    requires
        1 <= k0 <= lines@.len(),
    ensures
        (r.0 as int, texts(r.1@)) == assault_scan(lines_view(lines@), k0 as int),
{
    let ghost ls = lines_view(lines@);
    let mut out: Vec<String> = Vec::new();
    let mut k = k0;
    proof {
        assert(texts(out@) + assault_scan(ls, k as int).1 =~= assault_scan(ls, k as int).1);
    }
    while k < lines.len()
        invariant
            1 <= k0 <= k,
            k <= lines@.len(),
            ls == lines_view(lines@),
            assault_scan(ls, k0 as int) == (assault_scan(ls, k as int).0, texts(out@) + assault_scan(
                ls,
                k as int,
            ).1),
        decreases lines@.len() - k,
    {
        let sys = &lines[k];
        assert(ls[k as int] == sys@);
        if ends_assault_exec(sys) {
            assert(texts(out@) + Seq::<Seq<char>>::empty() =~= texts(out@));
            return (k - 1, out);
        }
        let ann = parse_announced(sys);
        if ann.is_some() && only_am_pm_letters_exec(sys) {
            assert(texts(out@) + Seq::<Seq<char>>::empty() =~= texts(out@));
            return (k, out);
        }
        if looks_like_system_exec(sys) && ann.is_none() {
            let ghost before = texts(out@);
            let name = string_of(sys, 0, sys.len());
            assert(sys@.subrange(0, sys@.len() as int) =~= sys@);
            out.push(name);
            assert(texts(out@) =~= before.push(sys@));
            assert(before + (seq![sys@] + assault_scan(ls, k + 1).1) =~= texts(out@) + assault_scan(
                ls,
                k + 1,
            ).1);
            k = k + 1;
        } else {
            assert(texts(out@) + Seq::<Seq<char>>::empty() =~= texts(out@));
            return (k, out);
        }
    }
    assert(texts(out@) + Seq::<Seq<char>>::empty() =~= texts(out@));
    (k, out)
}

/// `vanguard_scan` from line `k0`, as (end line, systems).
fn scan_vanguard(lines: &Vec<Vec<char>>, k0: usize) -> (r: (usize, Vec<String>))
    requires
        1 <= k0 <= lines@.len(),
    ensures
        (r.0 as int, texts(r.1@)) == vanguard_scan(lines_view(lines@), k0 as int),
{
    let ghost ls = lines_view(lines@);
    let mut out: Vec<String> = Vec::new();
    let mut k = k0;
    proof {
        assert(texts(out@) + vanguard_scan(ls, k as int).1 =~= vanguard_scan(ls, k as int).1);
    }
    while k < lines.len()
        invariant
            1 <= k0 <= k,
            k <= lines@.len(),
            ls == lines_view(lines@),
            vanguard_scan(ls, k0 as int) == (vanguard_scan(ls, k as int).0, texts(out@)
                + vanguard_scan(ls, k as int).1),
        decreases lines@.len() - k,
    {
        let sys = &lines[k];
        assert(ls[k as int] == sys@);
        if parse_announced(sys).is_some() {
            assert(texts(out@) + Seq::<Seq<char>>::empty() =~= texts(out@));
            return (k, out);
        }
        if crate::text::chars_eq_str(sys, "Region") || crate::text::chars_eq_str(sys, "Constellation")
            || crate::text::chars_eq_str(sys, "Assault System(s)") {
            assert(texts(out@) + Seq::<Seq<char>>::empty() =~= texts(out@));
            return (k - 1, out);
        }
        let ghost before = texts(out@);
        let name = string_of(sys, 0, sys.len());
        assert(sys@.subrange(0, sys@.len() as int) =~= sys@);
        out.push(name);
        assert(texts(out@) =~= before.push(sys@));
        assert(before + (seq![sys@] + vanguard_scan(ls, k + 1).1) =~= texts(out@) + vanguard_scan(
            ls,
            k + 1,
        ).1);
        k = k + 1;
    }
    assert(texts(out@) + Seq::<Seq<char>>::empty() =~= texts(out@));
    (k, out)
}

fn line_string(lines: &Vec<Vec<char>>, k: usize) -> (r: String)
    requires
        k < lines@.len(),
    ensures
        r@ == lines@[k as int]@,
{
    let l = &lines[k];
    assert(l@.subrange(0, l@.len() as int) =~= l@);
    string_of(l, 0, l.len())
}

fn append_texts(dst: &mut Vec<String>, src: Vec<String>)
    ensures
        texts(final(dst)@) == texts(old(dst)@) + texts(src@),
{
    let ghost d0 = texts(dst@);
    let mut src = src;
    let mut i: usize = 0;
    let ghost s0 = texts(src@);
    while i < src.len()
        invariant
            0 <= i <= src@.len(),
            s0 == texts(src@),
            texts(dst@) == d0 + s0.take(i as int),
        decreases src@.len() - i,
    {
        let ghost before = texts(dst@);
        dst.push(src[i].clone());
        assert(texts(dst@) =~= before.push(s0[i as int]));
        assert(d0 + s0.take(i + 1) =~= (d0 + s0.take(i as int)).push(s0[i as int]));
        i = i + 1;
    }
    assert(s0.take(src@.len() as int) =~= s0);
}

/// Applies the label at line `i`; returns the last line it used.
fn apply_label(lines: &Vec<Vec<char>>, i: usize, d: &mut SpawnDraft) -> (r: usize)
    requires
        i < lines@.len(),
    ensures
        (r as int, final(d)@) == label_step(lines_view(lines@), i as int, old(d)@),
{
    let ghost ls = lines_view(lines@);
    let has_next = i < lines.len() - 1;
    if line_is(lines, i, "Region") {
        if has_next && !has_char(&lines[i + 1], ':') {
            d.region = Some(line_string(lines, i + 1));
            return i + 1;
        }
        return i;
    }
    if line_is(lines, i, "Constellation") {
        if has_next {
            d.constellation = Some(line_string(lines, i + 1));
            return i + 1;
        }
        return i;
    }
    if line_is(lines, i, "Security Status") {
        if has_next {
            d.security_status = Some(line_string(lines, i + 1));
            return i + 1;
        }
        return i;
    }
    if line_is(lines, i, "Sov Holder") {
        if has_next {
            d.sov_holder = Some(line_string(lines, i + 1));
            return i + 1;
        }
        return i;
    }
    if line_is(lines, i, "Staging System") {
        if has_next {
            d.staging_system = Some(line_string(lines, i + 1));
            return i + 1;
        }
        return i;
    }
    if line_is(lines, i, "HQ System") {
        if has_next {
            d.hq_system = Some(line_string(lines, i + 1));
            return i + 1;
        }
        return i;
    }
    if line_is(lines, i, "Assault System(s)") {
        let (j, sys) = scan_assault(lines, i + 1);
        append_texts(&mut d.assault_systems, sys);
        return j;
    }
    if line_is(lines, i, "Vanguard Systems") {
        let (j, sys) = scan_vanguard(lines, i + 1);
        append_texts(&mut d.vanguard_systems, sys);
        return j;
    }
    i
}

/// Extract labeled fields from a Discord/bot Manifest paste.
pub fn parse_manifest(text: &str) -> (r: SpawnDraft)
    ensures
        r@ == manifest_of(text@),
{
    let lines = manifest_line_vecs(text);
    let ghost ls = lines_view(lines@);
    let mut draft = SpawnDraft::default();
    let mut i: usize = 0;
    while i < lines.len()
        invariant
            0 <= i <= lines@.len(),
            ls == lines_view(lines@),
            draft@ == header_scan(ls.take(i as int)),
        decreases lines@.len() - i,
    {
        assert(ls.take(i + 1).drop_last() =~= ls.take(i as int));
        assert(ls[i as int] == lines@[i as int]@);
        apply_header_line(&mut draft, &lines[i]);
        i = i + 1;
    }
    assert(ls.take(lines@.len() as int) =~= ls);
    proof {
        lemma_header_title(ls);
    }
    if lines.len() > 0 {
        let first = &lines[0];
        assert(ls[0] == first@);
        if !has_char(first, ':') && !crate::text::chars_eq_str(first, "Region")
            && !crate::text::chars_eq_str(first, "Constellation") && !crate::text::chars_eq_str(
            first,
            "APP",
        ) {
            draft.title = Some(line_string(&lines, 0));
        }
    }
    assert(draft@ == DraftView { title: title_of(ls), ..header_scan(ls) });
    let ghost target = manifest_of(text@);
    let mut i: usize = 0;
    while i < lines.len()
        invariant
            0 <= i <= lines@.len() + 1,
            ls == lines_view(lines@),
            target == label_scan(ls, i as int, draft@),
            target == manifest_of(text@),
        decreases lines@.len() - i,
    {
        proof {
            lemma_label_step_end(ls, i as int, draft@);
        }
        let ghost old_d = draft@;
        let j = apply_label(&lines, i, &mut draft);
        assert(label_scan(ls, i as int, old_d) == label_scan(ls, j + 1, draft@));
        if j >= lines.len() {
            assert(label_scan(ls, j + 1, draft@) == draft@);
            return draft;
        }
        i = j + 1;
    }
    draft
}


/// Text with no line that is non-blank after trimming (and dropping a
/// leading byte-order mark) gives the empty draft.
pub proof fn law_blank_manifest_is_empty(text: Seq<char>)
    requires
        forall|i: int| 0 <= i < str_lines(text).len() ==> clean_line(#[trigger] str_lines(text)[i]).len() == 0,
    ensures
        manifest_of(text) == empty_draft(),
{
    lemma_no_manifest_lines(str_lines(text));
}

proof fn lemma_no_manifest_lines(ls: Seq<Seq<char>>)
    requires
        forall|i: int| 0 <= i < ls.len() ==> clean_line(#[trigger] ls[i]).len() == 0,
    ensures
        manifest_lines(ls).len() == 0,
    decreases ls.len(),
{
    if ls.len() > 0 {
        let p = ls.drop_last();
        assert forall|i: int| 0 <= i < p.len() implies clean_line(#[trigger] p[i]).len() == 0 by {
            assert(p[i] == ls[i]);
        }
        lemma_no_manifest_lines(p);
        assert(ls[ls.len() - 1] == ls.last());
    }
}


/// A US date and 12-hour time is read month first: when the announcement
/// text parses as `%m/%d/%Y %I:%M %p`, that reading is the announcement
/// time (so `7/8/2026 5:41 AM` is July 8), whatever other formats say.
pub proof fn law_us_time_read_month_first(s: Seq<char>)
    ensures
        naive_date_time(announced_text(s), "%m/%d/%Y %I:%M %p"@) matches Some(x) ==> announced_of(s) == Some(x),
{
}

/// Every announcement time is a month-first (or EVE `%Y.%m.%d`) reading of
/// the announcement text, as written or with month, day and hour
/// zero-padded; no day-first reading is ever taken.
pub proof fn law_announced_is_month_first(s: Seq<char>)
    ensures
        announced_of(s) matches Some(x) ==> {
            let t = announced_text(s);
            ||| naive_date_time(t, "%m/%d/%Y %I:%M %p"@) == Some(x)
            ||| naive_date_time(t, "%m/%d/%Y %H:%M"@) == Some(x)
            ||| naive_date_time(t, "%Y.%m.%d %H:%M"@) == Some(x)
            ||| (us_datetime_padded(t) matches Some(p) && (naive_date_time(p, "%m/%d/%Y %I:%M %p"@) == Some(x)
                || naive_date_time(p, "%m/%d/%Y %H:%M"@) == Some(x)))
            ||| naive_date(t, "%m/%d/%Y"@) == Some(x)
            ||| (us_date_padded(t) matches Some(q) && naive_date(q, "%m/%d/%Y"@) == Some(x))
        },
{
}

} // verus!
