//! Wallet journal paste (tab-separated client export): qualifying Corporate
//! Reward Payout rows, de-duplicated and in time order.

use vstd::prelude::*;
use crate::clock::{eve_minutes, parse_eve_minutes, valid_ts};
use crate::numbers::{i64_text, parse_i64_range};
use crate::text::{
    chars_of, find_in, first_index, line_ranges, matches_at, piece_ranges, range_texts,
    ranges_within, seq_ends_with, skip_leading, split_on, str_lines, string_of, strip_leading, trim,
    trim_range, find_seq,
};

verus! {

/// One qualifying payout; `occurred_at` is UTC seconds since the epoch.
#[derive(Debug, Clone, PartialEq, Eq)]
pub struct WalletPayout {
    pub occurred_at: i64,
    pub amount_isk: i64,
    pub ref_type: String,
    pub description: String,
}

pub ghost struct WalletPayoutView {
    pub occurred_at: i64,
    pub amount_isk: i64,
    pub ref_type: Seq<char>,
    pub description: Seq<char>,
}

impl View for WalletPayout {
    type V = WalletPayoutView;

    open spec fn view(&self) -> WalletPayoutView {
        WalletPayoutView {
            occurred_at: self.occurred_at,
            amount_isk: self.amount_isk,
            ref_type: self.ref_type@,
            description: self.description@,
        }
    }
}

pub open spec fn payouts_view(s: Seq<WalletPayout>) -> Seq<WalletPayoutView> {
    s.map_values(|e: WalletPayout| e@)
}

#[derive(Debug, Clone)]
pub struct WalletParseResult {
    pub events: Vec<WalletPayout>,
    pub ignored_lines: u32,
    pub duplicates_dropped: u32,
}

/// `str::trim_end_matches(p)` for a non-empty text pattern.
pub open spec fn strip_suffix_all(s: Seq<char>, p: Seq<char>) -> Seq<char>
    decreases s.len(),
{
    if p.len() > 0 && seq_ends_with(s, p) {
        strip_suffix_all(s.take(s.len() - p.len()), p)
    } else {
        s
    }
}

/// `s` with its commas removed.
pub open spec fn without_commas(s: Seq<char>) -> Seq<char>
    decreases s.len(),
{
    if s.len() == 0 {
        seq![]
    } else if s.last() == ',' {
        without_commas(s.drop_last())
    } else {
        without_commas(s.drop_last()).push(s.last())
    }
}

/// An ISK amount such as `15,000,000 ISK`.
pub open spec fn isk_amount(s: Seq<char>) -> Option<i64> {
    i64_text(without_commas(strip_suffix_all(strip_suffix_all(trim(s), " ISK"@), " isk"@)))
}

/// What one journal line is: `None` when blank, `Some(None)` when ignored,
/// `Some(Some(p))` for a qualifying payout.
pub open spec fn wallet_line(l: Seq<char>, expected_isk: i64) -> Option<Option<WalletPayoutView>> {
    let t = strip_leading(trim(l), '\u{feff}');
    if t.len() == 0 {
        None
    } else {
        let parts = split_on(t, '\t');
        if parts.len() < 3 {
            Some(None)
        } else {
            match eve_minutes(trim(trim(parts[0]))) {
                None => Some(None),
                Some(ts) => match isk_amount(trim(parts[2])) {
                    None => Some(None),
                    Some(amount) => if trim(parts[1]) != "Corporate Reward Payout"@ || amount
                        != expected_isk {
                        Some(None)
                    } else {
                        Some(
                            Some(
                                WalletPayoutView {
                                    occurred_at: ts,
                                    amount_isk: amount,
                                    ref_type: trim(parts[1]),
                                    description: if parts.len() > 4 {
                                        trim(parts[4])
                                    } else {
                                        Seq::<char>::empty()
                                    },
                                },
                            ),
                        )
                    },
                },
            }
        }
    }
}

pub ghost struct WalletScan {
    pub events: Seq<WalletPayoutView>,
    pub ignored: nat,
    pub duplicates: nat,
}

pub open spec fn has_payout(es: Seq<WalletPayoutView>, t: i64, amount: i64) -> bool {
    exists|i: int| 0 <= i < es.len() && (#[trigger] es[i]).occurred_at == t && es[i].amount_isk == amount
}

/// Journal lines in order: qualifying payouts kept the first time their
/// (timestamp, amount) is seen, ignored and duplicate lines counted.
pub open spec fn wallet_scan(lines: Seq<Seq<char>>, expected_isk: i64) -> WalletScan
    decreases lines.len(),
{
    if lines.len() == 0 {
        WalletScan { events: seq![], ignored: 0, duplicates: 0 }
    } else {
        let prev = wallet_scan(lines.drop_last(), expected_isk);
        match wallet_line(lines.last(), expected_isk) {
            None => prev,
            Some(None) => WalletScan { ignored: prev.ignored + 1, ..prev },
            Some(Some(p)) => if has_payout(prev.events, p.occurred_at, p.amount_isk) {
                WalletScan { duplicates: prev.duplicates + 1, ..prev }
            } else {
                WalletScan { events: prev.events.push(p), ..prev }
            },
        }
    }
}

/// The FC name a `CONCORD rewarded <name> for services performed` description names.
pub open spec fn fc_hint(d: Seq<char>) -> Option<Seq<char>> {
    match find_seq(d, "CONCORD rewarded "@) {
        Some(i) => {
            let rest = d.skip(i + "CONCORD rewarded "@.len());
            match find_seq(rest, " for services performed"@) {
                Some(e) => {
                    let name = trim(rest.take(e));
                    if name.len() == 0 {
                        None
                    } else {
                        Some(name)
                    }
                },
                None => None,
            }
        },
        None => None,
    }
}

pub proof fn lemma_scan_counts(lines: Seq<Seq<char>>, expected_isk: i64)
    ensures
        wallet_scan(lines, expected_isk).ignored + wallet_scan(lines, expected_isk).duplicates
            <= lines.len(),
    decreases lines.len(),
{
    if lines.len() > 0 {
        lemma_scan_counts(lines.drop_last(), expected_isk);
    }
}

pub proof fn lemma_str_lines_len(s: Seq<char>)
    ensures
        str_lines(s).len() <= s.len(),
    decreases s.len(),
{
    if s.len() > 0 {
        let i = first_index(s, '\n');
        if i < s.len() {
            lemma_str_lines_len(s.skip(i as int + 1));
        }
    }
}

/// `v[lo..hi]` with trailing copies of `p` removed.
fn strip_suffix_range(v: &Vec<char>, lo: usize, hi: usize, p: &Vec<char>) -> (r: usize)
    requires
        lo <= hi <= v@.len(),
    ensures
        lo <= r <= hi,
        v@.subrange(lo as int, r as int) == strip_suffix_all(v@.subrange(lo as int, hi as int), p@),
{
    let mut h = hi;
    while p.len() > 0 && p.len() <= h - lo && matches_at(v, h - p.len(), h, p)
        invariant
            lo <= h <= hi <= v@.len(),
            strip_suffix_all(v@.subrange(lo as int, hi as int), p@) == strip_suffix_all(
                v@.subrange(lo as int, h as int),
                p@,
            ),
        decreases h - lo,
    {
        let ghost s = v@.subrange(lo as int, h as int);
        assert(s.subrange(s.len() - p@.len(), s.len() as int) =~= v@.subrange(
            h - p@.len(),
            h as int,
        ));
        assert(s.take(s.len() - p@.len()) =~= v@.subrange(lo as int, h - p@.len()));
        h = h - p.len();
    }
    proof {
        let s = v@.subrange(lo as int, h as int);
        if p@.len() > 0 && p@.len() <= h - lo {
            assert(s.subrange(s.len() - p@.len(), s.len() as int) =~= v@.subrange(
                h - p@.len(),
                h as int,
            ));
        }
    }
    h
}

/// Parse an ISK amount such as `15,000,000 ISK` from `v[lo..hi]`.
fn parse_isk_amount_range(v: &Vec<char>, lo: usize, hi: usize) -> (r: Option<i64>)
    requires
        lo <= hi <= v@.len(),
    ensures
        r == isk_amount(v@.subrange(lo as int, hi as int)),
{
    let (a, b) = trim_range(v, lo, hi);
    let upper = chars_of(" ISK");
    let lower = chars_of(" isk");
    let b1 = strip_suffix_range(v, a, b, &upper);
    let b2 = strip_suffix_range(v, a, b1, &lower);
    let ghost s = v@.subrange(a as int, b2 as int);
    let mut digits: Vec<char> = Vec::new();
    let mut i = a;
    assert(s.take(0) =~= Seq::<char>::empty());
    while i < b2
        invariant
            a <= i <= b2 <= v@.len(),
            s == v@.subrange(a as int, b2 as int),
            digits@ == without_commas(s.take(i - a)),
        decreases b2 - i,
    {
        assert(s.take(i - a + 1).drop_last() =~= s.take(i - a));
        assert(s.take(i - a + 1).last() == v@[i as int]);
        if v[i] != ',' {
            digits.push(v[i]);
        }
        i = i + 1;
    }
    assert(s.take(b2 - a) =~= s);
    assert(digits@.subrange(0, digits@.len() as int) =~= digits@);
    parse_i64_range(&digits, 0, digits.len())
}

/// Parse an ISK amount such as `15,000,000 ISK`.
pub fn parse_isk_amount(s: &str) -> (r: Option<i64>)
    ensures
        r == isk_amount(s@),
{
    let v = chars_of(s);
    assert(v@.subrange(0, v@.len() as int) =~= v@);
    parse_isk_amount_range(&v, 0, v.len())
}

/// Best-effort FC-name hint from a Corporate Reward Payout description, e.g.
/// `"CONCORD rewarded tomar norris for services performed."` gives `tomar norris`.
pub fn extract_wallet_fc_hint(description: &str) -> (r: Option<String>)
    ensures
        match r {
            Some(n) => fc_hint(description@) == Some(n@),
            None => fc_hint(description@) is None,
        },
{
    let v = chars_of(description);
    let prefix = chars_of("CONCORD rewarded ");
    let suffix = chars_of(" for services performed");
    assert(v@.subrange(0, v@.len() as int) =~= v@);
    let start = match find_in(&v, 0, v.len(), &prefix) {
        Some(k) => k + prefix.len(),
        None => return None,
    };
    let ghost rest = v@.subrange(start as int, v@.len() as int);
    assert(description@.skip(start as int) =~= rest);
    let end = match find_in(&v, start, v.len(), &suffix) {
        Some(k) => k,
        None => return None,
    };
    assert(rest.take(end - start) =~= v@.subrange(start as int, end as int));
    let (a, b) = trim_range(&v, start, end);
    if a == b {
        None
    } else {
        Some(string_of(&v, a, b))
    }
}

/// What `wallet_line` computes, for the line `v[lo..hi]`.
fn wallet_line_exec(v: &Vec<char>, lo: usize, hi: usize, expected_isk: i64) -> (r: Option<
    Option<WalletPayout>,
>)
    requires
        lo <= hi <= v@.len(),
    ensures
        match r {
            None => wallet_line(v@.subrange(lo as int, hi as int), expected_isk) is None,
            Some(None) => wallet_line(v@.subrange(lo as int, hi as int), expected_isk) == Some(
                None::<WalletPayoutView>,
            ),
            Some(Some(p)) => wallet_line(v@.subrange(lo as int, hi as int), expected_isk) == Some(
                Some(p@),
            ) && valid_ts(p.occurred_at as int),
        },
{
    let ghost l = v@.subrange(lo as int, hi as int);
    let (ta, tb) = trim_range(v, lo, hi);
    let s = skip_leading(v, ta, tb, '\u{feff}');
    let ghost t = strip_leading(trim(l), '\u{feff}');
    assert(t =~= v@.subrange(s as int, tb as int));
    if s == tb {
        return None;
    }
    let parts = piece_ranges(v, s, tb, '\t');
    let ghost ps = split_on(t, '\t');
    if parts.len() < 3 {
        return Some(None);
    }
    assert(ps[0] == v@.subrange(parts@[0].0 as int, parts@[0].1 as int));
    assert(ps[1] == v@.subrange(parts@[1].0 as int, parts@[1].1 as int));
    assert(ps[2] == v@.subrange(parts@[2].0 as int, parts@[2].1 as int));
    let (a0, b0) = trim_range(v, parts[0].0, parts[0].1);
    let (a0, b0) = trim_range(v, a0, b0);
    let stamp = string_of(v, a0, b0);
    let ts = match parse_eve_minutes(&stamp) {
        Some(t) => t,
        None => return Some(None),
    };
    let (a2, b2) = trim_range(v, parts[2].0, parts[2].1);
    let amount = match parse_isk_amount_range(v, a2, b2) {
        Some(x) => x,
        None => return Some(None),
    };
    let (a1, b1) = trim_range(v, parts[1].0, parts[1].1);
    let key = chars_of("Corporate Reward Payout");
    let is_key = b1 - a1 == key.len() && matches_at(v, a1, b1, &key);
    assert(is_key == (v@.subrange(a1 as int, b1 as int) == key@)) by {
        if v@.subrange(a1 as int, b1 as int) == key@ || is_key {
            assert(v@.subrange(a1 as int, a1 + key@.len()) =~= v@.subrange(a1 as int, b1 as int));
        }
    }
    if !is_key || amount != expected_isk {
        return Some(None);
    }
    let description = if parts.len() > 4 {
        assert(ps[4] == v@.subrange(parts@[4].0 as int, parts@[4].1 as int));
        let (a4, b4) = trim_range(v, parts[4].0, parts[4].1);
        string_of(v, a4, b4)
    } else {
        String::new()
    };
    Some(
        Some(
            WalletPayout {
                occurred_at: ts,
                amount_isk: amount,
                ref_type: string_of(v, a1, b1),
                description,
            },
        ),
    )
}

/// Times strictly increase along `s`.
pub open spec fn strictly_timed(s: Seq<WalletPayoutView>) -> bool {
    forall|i: int, j: int| 0 <= i < j < s.len() ==> (#[trigger] s[i]).occurred_at < (
    #[trigger] s[j]).occurred_at
}

/// Parse wallet journal text. Keep rows whose ref type is Corporate Reward
/// Payout and whose amount equals `expected_isk`; de-duplicate by
/// (timestamp, amount); return them in time order.
pub fn parse_wallet_journal(text: &str, expected_isk: i64) -> (r: WalletParseResult)
    requires
        text@.len() < u32::MAX,
    ensures
        ({
            let scan = wallet_scan(str_lines(text@), expected_isk);
            &&& payouts_view(r.events@).to_multiset() == scan.events.to_multiset()
            &&& strictly_timed(payouts_view(r.events@))
            &&& r.ignored_lines == scan.ignored
            &&& r.duplicates_dropped == scan.duplicates
        }),
        forall|i: int|
            0 <= i < r.events@.len() ==> (#[trigger] r.events@[i]).amount_isk == expected_isk
                && r.events@[i].ref_type@ == "Corporate Reward Payout"@ && valid_ts(
                r.events@[i].occurred_at as int,
            ),
{
    let v = chars_of(text);
    let ranges = line_ranges(&v, 0, v.len());
    assert(v@.subrange(0, v@.len() as int) =~= v@);
    let ghost lines = range_texts(v@, ranges@);
    proof {
        lemma_str_lines_len(text@);
        lemma_scan_counts(lines, expected_isk);
    }
    let mut events: Vec<WalletPayout> = Vec::new();
    let mut ignored: u32 = 0;
    let mut duplicates: u32 = 0;
    let mut i: usize = 0;
    assert(lines.take(0) =~= Seq::<Seq<char>>::empty());
    assert(payouts_view(events@) =~= Seq::<WalletPayoutView>::empty());
    while i < ranges.len()
        invariant
            lines == range_texts(v@, ranges@),
            lines == str_lines(text@),
            lines.len() < u32::MAX,
            ranges_within(ranges@, v@.len() as int),
            0 <= i <= ranges@.len(),
            ({
                let scan = wallet_scan(lines.take(i as int), expected_isk);
                &&& payouts_view(events@).to_multiset() == scan.events.to_multiset()
                &&& strictly_timed(payouts_view(events@))
                &&& ignored == scan.ignored
                &&& duplicates == scan.duplicates
            }),
            forall|k: int|
                0 <= k < events@.len() ==> (#[trigger] events@[k]).amount_isk == expected_isk
                    && events@[k].ref_type@ == "Corporate Reward Payout"@ && valid_ts(
                    events@[k].occurred_at as int,
                ),
        decreases ranges@.len() - i,
    {
        let (a, b) = ranges[i];
        let ghost l = v@.subrange(a as int, b as int);
        let ghost prev = wallet_scan(lines.take(i as int), expected_isk);
        assert(lines[i as int] == l);
        assert(lines.take(i + 1).drop_last() =~= lines.take(i as int));
        assert(lines.take(i + 1).last() == l);
        proof {
            lemma_scan_counts(lines.take(i + 1), expected_isk);
        }
        match wallet_line_exec(&v, a, b, expected_isk) {
            None => {},
            Some(None) => {
                ignored = ignored + 1;
            },
            Some(Some(p)) => {
                let ghost pv = payouts_view(events@);
                let mut k: usize = 0;
                while k < events.len() && events[k].occurred_at < p.occurred_at
                    invariant
                        0 <= k <= events@.len(),
                        pv == payouts_view(events@),
                        forall|j: int| 0 <= j < k ==> (#[trigger] pv[j]).occurred_at < p.occurred_at,
                    decreases events@.len() - k,
                {
                    k = k + 1;
                }
                let dup = k < events.len() && events[k].occurred_at == p.occurred_at;
                proof {
                    pv.to_multiset_ensures();
                    prev.events.to_multiset_ensures();
                }
                if dup {
                    proof {
                        let x = pv[k as int];
                        assert(pv.contains(x));
                        assert(pv.to_multiset().count(x) > 0);
                        assert(prev.events.to_multiset().count(x) > 0);
                        assert(prev.events.contains(x));
                        let j = choose|j: int| 0 <= j < prev.events.len() && prev.events[j]
                            == pv[k as int];
                        assert(has_payout(prev.events, p@.occurred_at, p@.amount_isk));
                    }
                    duplicates = duplicates + 1;
                } else {
                    proof {
                        if has_payout(prev.events, p@.occurred_at, p@.amount_isk) {
                            let j = choose|j: int|
                                0 <= j < prev.events.len() && (#[trigger] prev.events[j]).occurred_at
                                    == p@.occurred_at && prev.events[j].amount_isk
                                    == p@.amount_isk;
                            let x = prev.events[j];
                            assert(prev.events.contains(x));
                            assert(prev.events.to_multiset().count(x) > 0);
                            assert(pv.to_multiset().count(x) > 0);
                            assert(pv.contains(x));
                            let q = choose|q: int| 0 <= q < pv.len() && pv[q] == prev.events[j];
                            if q < k {
                            } else if q > k {
                                assert(pv[k as int].occurred_at < pv[q].occurred_at);
                            }
                        }
                    }
                    events.insert(k, p);
                    proof {
                        let nv = payouts_view(events@);
                        assert(nv =~= pv.insert(k as int, p@));
                        vstd::seq_lib::to_multiset_insert(pv, k as int, p@);
                        vstd::seq_lib::to_multiset_build(prev.events, p@);
                        assert forall|x: int, y: int| 0 <= x < y < nv.len() implies (
                        #[trigger] nv[x]).occurred_at < (#[trigger] nv[y]).occurred_at by {
                            if y < k {
                                assert(nv[x] == pv[x] && nv[y] == pv[y]);
                            } else if y == k {
                                assert(nv[x] == pv[x]);
                            } else if x == k {
                                assert(nv[y] == pv[y - 1]);
                                if y - 1 > k {
                                    assert(pv[k as int].occurred_at < pv[y - 1].occurred_at);
                                }
                            } else if x < k {
                                assert(nv[x] == pv[x] && nv[y] == pv[y - 1]);
                            } else {
                                assert(nv[x] == pv[x - 1] && nv[y] == pv[y - 1]);
                            }
                        }
                        assert forall|j: int| 0 <= j < events@.len() implies (
                        #[trigger] events@[j]).amount_isk == expected_isk && events@[j].ref_type@
                            == "Corporate Reward Payout"@ && valid_ts(
                            events@[j].occurred_at as int,
                        ) by {
                            assert(nv[j] == events@[j]@);
                            if j < k {
                                assert(nv[j] == pv[j]);
                            } else if j > k {
                                assert(nv[j] == pv[j - 1]);
                            }
                        }
                    }
                }
            },
        }
        i = i + 1;
    }
    assert(lines.take(ranges@.len() as int) =~= lines);
    WalletParseResult { events, ignored_lines: ignored, duplicates_dropped: duplicates }
}

} // verus!
