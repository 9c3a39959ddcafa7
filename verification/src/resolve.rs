//! Picking the active Fleet chatlog and gamelog, and listing characters, from
//! the files of a log directory.

use vstd::prelude::*;
use crate::board::{lemma_lex_irreflexive, lemma_lex_total, lemma_lex_transitive, lex_lt, lex_lt_exec};
use crate::gamelog_watch::{gamelog_file, gamelog_stamp, is_gamelog, stamp_of};
use crate::parse::{listener_in, parse_listener};
use crate::paths::{eq_ignore_ascii_case, eq_ignore_ascii_case_exec, file_name_of, file_name_text};
use crate::text::{chars_of, seq_ends_with, seq_starts_with, str_lines};

verus! {

/// A file of a log directory as the resolver sees it: its path, its text
/// when it could be read, and its modification time (nanoseconds from the
/// Unix epoch; 0 when unknown).
#[derive(Debug, Clone, PartialEq, Eq)]
pub struct LogFile {
    pub path: String,
    pub text: Option<String>,
    pub modified: i128,
}

pub ghost struct LogFileView {
    pub path: Seq<char>,
    pub text: Option<Seq<char>>,
    pub modified: i128,
}

impl View for LogFile {
    type V = LogFileView;

    open spec fn view(&self) -> LogFileView {
        LogFileView {
            path: self.path@,
            text: match self.text {
                Some(t) => Some(t@),
                None => None,
            },
            modified: self.modified,
        }
    }
}

pub open spec fn files_view(s: Seq<LogFile>) -> Seq<LogFileView> {
    s.map_values(|f: LogFile| f@)
}

/// The Listener of a readable file.
pub open spec fn listener_of_file(f: LogFileView) -> Option<Seq<char>> {
    match f.text {
        Some(t) => listener_in(str_lines(t)),
        None => None,
    }
}

fn file_listener(f: &LogFile) -> (r: Option<String>)
    ensures
        match r {
            Some(n) => listener_of_file(f@) == Some(n@),
            None => listener_of_file(f@) is None,
        },
{
    match &f.text {
        Some(t) => parse_listener(t.as_str()),
        None => None,
    }
}

/// A Fleet chatlog: file name `Fleet_*.txt`.
pub open spec fn fleet_log_file(p: Seq<char>) -> bool {
    match file_name_text(p) {
        Some(n) => seq_starts_with(n, "Fleet_"@) && seq_ends_with(n, ".txt"@),
        None => false,
    }
}

pub fn is_fleet_log(path: &str) -> (r: bool)
    ensures
        r == fleet_log_file(path@),
{
    match file_name_of(path) {
        Some(n) => {
            let v = chars_of(n.as_str());
            let pre = chars_of("Fleet_");
            let suf = chars_of(".txt");
            assert(v@.subrange(0, v@.len() as int) =~= v@);
            let starts = crate::text::matches_at(&v, 0, v.len(), &pre);
            if !starts {
                return false;
            }
            if suf.len() > v.len() {
                return false;
            }
            let at = v.len() - suf.len();
            let ends = crate::text::matches_at(&v, at, v.len(), &suf);
            ends
        },
        None => false,
    }
}

/// The log id of a chatlog (its file name, or `unknown`); site ids hash it.
pub open spec fn log_id_of(p: Seq<char>) -> Seq<char> {
    match file_name_text(p) {
        Some(n) => n,
        None => "unknown"@,
    }
}

/// Stable log id from a chatlog's file name (used in site ids).
pub fn fleet_log_id(path: &str) -> (r: String)
    ensures
        r@ == log_id_of(path@),
{
    match file_name_of(path) {
        Some(n) => n,
        None => String::from_str("unknown"),
    }
}

/// A readable Fleet chatlog whose Listener is `character` (any ASCII case).
pub open spec fn fleet_candidate(f: LogFileView, character: Seq<char>) -> bool {
    &&& fleet_log_file(f.path)
    &&& listener_of_file(f) matches Some(l) && eq_ignore_ascii_case(l, character)
}

/// The newest matching Fleet chatlog: latest modification time, and of
/// equal times the later file.
pub open spec fn pick_fleet_log(fs: Seq<LogFileView>, character: Seq<char>) -> Option<LogFileView>
    decreases fs.len(),
{
    if fs.len() == 0 {
        None
    } else {
        let b = pick_fleet_log(fs.drop_last(), character);
        let f = fs.last();
        if fleet_candidate(f, character) {
            match b {
                Some(x) => if f.modified >= x.modified {
                    Some(f)
                } else {
                    b
                },
                None => Some(f),
            }
        } else {
            b
        }
    }
}

/// Pick the newest `Fleet_*.txt` whose Listener matches `character`.
pub fn resolve_active_fleet_log(files: &Vec<LogFile>, character: &str) -> (r: Option<String>)
    ensures
        match r {
            Some(p) => pick_fleet_log(files_view(files@), character@) matches Some(f) && f.path == p@,
            None => pick_fleet_log(files_view(files@), character@) is None,
        },
{
    let ghost fv = files_view(files@);
    let mut best: Option<usize> = None;
    let mut i: usize = 0;
    while i < files.len()
        invariant
            0 <= i <= files@.len(),
            fv == files_view(files@),
            match best {
                Some(k) => k < i && pick_fleet_log(fv.take(i as int), character@) == Some(fv[k as int]),
                None => pick_fleet_log(fv.take(i as int), character@) is None,
            },
        decreases files@.len() - i,
    {
        assert(fv.take(i + 1).drop_last() =~= fv.take(i as int));
        let f = &files[i];
        assert(fv[i as int] == f@);
        let candidate = if is_fleet_log(f.path.as_str()) {
            match file_listener(f) {
                Some(l) => eq_ignore_ascii_case_exec(l.as_str(), character),
                None => false,
            }
        } else {
            false
        };
        if candidate {
            match best {
                Some(k) => {
                    if f.modified >= files[k].modified {
                        best = Some(i);
                    }
                },
                None => {
                    best = Some(i);
                },
            }
        }
        i = i + 1;
    }
    assert(fv.take(files@.len() as int) =~= fv);
    match best {
        Some(k) => Some(files[k].path.clone()),
        None => None,
    }
}

/// A readable gamelog whose Listener is `character` (any ASCII case).
pub open spec fn gamelog_candidate(f: LogFileView, character: Seq<char>) -> bool {
    &&& gamelog_file(f.path)
    &&& listener_of_file(f) matches Some(l) && eq_ignore_ascii_case(l, character)
}

/// The newest matching gamelog: greatest file-name stamp, and of equal
/// stamps the later file.
pub open spec fn pick_gamelog(fs: Seq<LogFileView>, character: Seq<char>) -> Option<LogFileView>
    decreases fs.len(),
{
    if fs.len() == 0 {
        None
    } else {
        let b = pick_gamelog(fs.drop_last(), character);
        let f = fs.last();
        if gamelog_candidate(f, character) {
            match b {
                Some(x) => if !lex_lt(stamp_of(f.path), stamp_of(x.path)) {
                    Some(f)
                } else {
                    b
                },
                None => Some(f),
            }
        } else {
            b
        }
    }
}

/// Newest gamelog whose Listener matches `character` (file-name stamp, then
/// directory order).
pub fn resolve_active_gamelog(files: &Vec<LogFile>, character: &str) -> (r: Option<String>)
    ensures
        match r {
            Some(p) => pick_gamelog(files_view(files@), character@) matches Some(f) && f.path == p@,
            None => pick_gamelog(files_view(files@), character@) is None,
        },
{
    let ghost fv = files_view(files@);
    let mut best: Option<usize> = None;
    let mut best_stamp: Vec<char> = Vec::new();
    let mut i: usize = 0;
    while i < files.len()
        invariant
            0 <= i <= files@.len(),
            fv == files_view(files@),
            match best {
                Some(k) => k < i && pick_gamelog(fv.take(i as int), character@) == Some(fv[k as int])
                    && best_stamp@ == stamp_of(fv[k as int].path),
                None => pick_gamelog(fv.take(i as int), character@) is None,
            },
        decreases files@.len() - i,
    {
        assert(fv.take(i + 1).drop_last() =~= fv.take(i as int));
        let f = &files[i];
        assert(fv[i as int] == f@);
        let candidate = if is_gamelog(f.path.as_str()) {
            match file_listener(f) {
                Some(l) => eq_ignore_ascii_case_exec(l.as_str(), character),
                None => false,
            }
        } else {
            false
        };
        if candidate {
            let stamp = gamelog_stamp(f.path.as_str());
            let sv = chars_of(stamp.as_str());
            match best {
                Some(k) => {
                    if !lex_lt_exec(&sv, &best_stamp) {
                        best = Some(i);
                        best_stamp = sv;
                    }
                },
                None => {
                    best = Some(i);
                    best_stamp = sv;
                },
            }
        }
        i = i + 1;
    }
    assert(fv.take(files@.len() as int) =~= fv);
    match best {
        Some(k) => Some(files[k].path.clone()),
        None => None,
    }
}

/// `s` is strictly increasing, so each name is there once.
pub open spec fn strictly_sorted(s: Seq<Seq<char>>) -> bool {
    forall|i: int, j: int| 0 <= i < j < s.len() ==> lex_lt(#[trigger] s[i], #[trigger] s[j])
}

/// The Listener names of the readable Fleet chatlogs among `fs`.
pub open spec fn fleet_listeners(fs: Seq<LogFileView>) -> Set<Seq<char>> {
    Set::new(
        |n: Seq<char>|
            exists|i: int|
                0 <= i < fs.len() && fleet_log_file((#[trigger] fs[i]).path) && listener_of_file(fs[i])
                    == Some(n),
    )
}

fn string_lt(a: &String, b: &Vec<char>) -> (r: bool)
    ensures
        r == lex_lt(a@, b@),
{
    let v = chars_of(a.as_str());
    lex_lt_exec(&v, b)
}

/// Inserts `x` into sorted `out`, unless it is there.
fn insert_sorted(out: &mut Vec<String>, x: String)
    requires
        strictly_sorted(crate::enrichment::strings_view(old(out)@)),
    ensures
        strictly_sorted(crate::enrichment::strings_view(final(out)@)),
        crate::enrichment::strings_view(final(out)@).to_set() == crate::enrichment::strings_view(
            old(out)@,
        ).to_set().insert(x@),
{
    let ghost before = crate::enrichment::strings_view(out@);
    let xv = chars_of(x.as_str());
    let mut k: usize = 0;
    while k < out.len() && string_lt(&out[k], &xv)
        invariant
            0 <= k <= out@.len(),
            before == crate::enrichment::strings_view(out@),
            xv@ == x@,
            forall|j: int| 0 <= j < k ==> lex_lt(#[trigger] before[j], x@),
        decreases out@.len() - k,
    {
        assert(before[k as int] == out@[k as int]@);
        k = k + 1;
    }
    if k < out.len() {
        assert(before[k as int] == out@[k as int]@);
    }
    if k < out.len() && out[k] == x {
        assert(before.to_set() =~= before.to_set().insert(x@)) by {
            assert(before[k as int] == x@);
            assert(before.contains(x@));
        }
        return;
    }
    proof {
        if k < before.len() {
            assert(!lex_lt(before[k as int], x@));
            assert(before[k as int] != x@);
            crate::board::lemma_lex_total(before[k as int], x@);
            assert(lex_lt(x@, before[k as int]));
        }
    }
    out.insert(k, x);
    proof {
        let after = crate::enrichment::strings_view(out@);
        assert(after =~= before.insert(k as int, x@));
        assert forall|i: int, j: int| 0 <= i < j < after.len() implies lex_lt(
            #[trigger] after[i],
            #[trigger] after[j],
        ) by {
            if j < k {
                assert(after[i] == before[i] && after[j] == before[j]);
            } else if j == k {
                assert(after[i] == before[i]);
            } else if i == k {
                assert(after[j] == before[j - 1]);
                if j - 1 > k {
                    lemma_lex_transitive(x@, before[k as int], before[j - 1]);
                }
            } else if i < k {
                assert(after[i] == before[i] && after[j] == before[j - 1]);
                if j - 1 > k {
                    lemma_lex_transitive(x@, before[k as int], before[j - 1]);
                }
                assert(lex_lt(x@, before[j - 1]));
                lemma_lex_transitive(before[i], x@, before[j - 1]);
            } else {
                assert(after[i] == before[i - 1] && after[j] == before[j - 1]);
            }
        }
        assert(after.to_set() =~= before.to_set().insert(x@)) by {
            assert forall|n: Seq<char>| after.contains(n) <==> before.contains(n) || n == x@ by {
                if after.contains(n) {
                    let i = choose|i: int| 0 <= i < after.len() && after[i] == n;
                    if i < k {
                        assert(before[i] == n);
                    } else if i > k {
                        assert(before[i - 1] == n);
                    }
                }
                if before.contains(n) {
                    let i = choose|i: int| 0 <= i < before.len() && before[i] == n;
                    if i < k {
                        assert(after[i] == n);
                    } else {
                        assert(after[i + 1] == n);
                    }
                }
                if n == x@ {
                    assert(after[k as int] == n);
                }
            }
        }
    }
}

/// Unique Listener names found in `Fleet_*.txt` headers, sorted.
pub fn list_characters(files: &Vec<LogFile>) -> (r: Vec<String>)
    ensures
        strictly_sorted(crate::enrichment::strings_view(r@)),
        crate::enrichment::strings_view(r@).to_set() == fleet_listeners(files_view(files@)),
{
    let ghost fv = files_view(files@);
    let mut names: Vec<String> = Vec::new();
    let mut i: usize = 0;
    assert(crate::enrichment::strings_view(names@).to_set() =~= fleet_listeners(fv.take(0)));
    while i < files.len()
        invariant
            0 <= i <= files@.len(),
            fv == files_view(files@),
            strictly_sorted(crate::enrichment::strings_view(names@)),
            crate::enrichment::strings_view(names@).to_set() == fleet_listeners(fv.take(i as int)),
        decreases files@.len() - i,
    {
        let f = &files[i];
        assert(fv[i as int] == f@);
        let ghost before = fleet_listeners(fv.take(i as int));
        let ghost next = fleet_listeners(fv.take(i + 1));
        if is_fleet_log(f.path.as_str()) {
            match file_listener(f) {
                Some(l) => {
                    let ghost lv = l@;
                    insert_sorted(&mut names, l);
                    assert(next =~= before.insert(lv)) by {
                        assert forall|n: Seq<char>| next.contains(n) <==> before.contains(n) || n == lv by {
                            if next.contains(n) {
                                let j = choose|j: int|
                                    0 <= j < i + 1 && fleet_log_file((#[trigger] fv.take(i + 1)[j]).path)
                                        && listener_of_file(fv.take(i + 1)[j]) == Some(n);
                                if j < i {
                                    assert(fv.take(i as int)[j] == fv.take(i + 1)[j]);
                                }
                            }
                            if before.contains(n) {
                                let j = choose|j: int|
                                    0 <= j < i && fleet_log_file((#[trigger] fv.take(i as int)[j]).path)
                                        && listener_of_file(fv.take(i as int)[j]) == Some(n);
                                assert(fv.take(i + 1)[j] == fv.take(i as int)[j]);
                            }
                            if n == lv {
                                assert(fv.take(i + 1)[i as int] == fv[i as int]);
                            }
                        }
                    }
                },
                None => {
                    assert(next =~= before) by {
                        assert forall|n: Seq<char>| next.contains(n) <==> before.contains(n) by {
                            if next.contains(n) {
                                let j = choose|j: int|
                                    0 <= j < i + 1 && fleet_log_file((#[trigger] fv.take(i + 1)[j]).path)
                                        && listener_of_file(fv.take(i + 1)[j]) == Some(n);
                                if j < i {
                                    assert(fv.take(i as int)[j] == fv.take(i + 1)[j]);
                                } else {
                                    assert(fv.take(i + 1)[j] == fv[i as int]);
                                }
                            }
                            if before.contains(n) {
                                let j = choose|j: int|
                                    0 <= j < i && fleet_log_file((#[trigger] fv.take(i as int)[j]).path)
                                        && listener_of_file(fv.take(i as int)[j]) == Some(n);
                                assert(fv.take(i + 1)[j] == fv.take(i as int)[j]);
                            }
                        }
                    }
                },
            }
        } else {
            assert(next =~= before) by {
                assert forall|n: Seq<char>| next.contains(n) <==> before.contains(n) by {
                    if next.contains(n) {
                        let j = choose|j: int|
                            0 <= j < i + 1 && fleet_log_file((#[trigger] fv.take(i + 1)[j]).path)
                                && listener_of_file(fv.take(i + 1)[j]) == Some(n);
                        if j < i {
                            assert(fv.take(i as int)[j] == fv.take(i + 1)[j]);
                        } else {
                            assert(fv.take(i + 1)[j] == fv[i as int]);
                        }
                    }
                    if before.contains(n) {
                        let j = choose|j: int|
                            0 <= j < i && fleet_log_file((#[trigger] fv.take(i as int)[j]).path)
                                && listener_of_file(fv.take(i as int)[j]) == Some(n);
                        assert(fv.take(i + 1)[j] == fv.take(i as int)[j]);
                    }
                }
            }
        }
        i = i + 1;
    }
    assert(fv.take(files@.len() as int) =~= fv);
    names
}


/// The picked Fleet chatlog is a matching one whose modification time is at
/// least that of every other matching Fleet chatlog; there is one exactly
/// when some file matches.
pub proof fn law_newest_fleet_log(fs: Seq<LogFileView>, character: Seq<char>)
    ensures
        pick_fleet_log(fs, character) is None <==> forall|i: int|
            0 <= i < fs.len() ==> !fleet_candidate(#[trigger] fs[i], character),
        pick_fleet_log(fs, character) matches Some(f) ==> {
            &&& exists|i: int| 0 <= i < fs.len() && #[trigger] fs[i] == f
            &&& fleet_candidate(f, character)
            &&& forall|i: int|
                0 <= i < fs.len() && fleet_candidate(#[trigger] fs[i], character) ==> fs[i].modified <= f.modified
        },
    decreases fs.len(),
{
    if fs.len() > 0 {
        let p = fs.drop_last();
        law_newest_fleet_log(p, character);
        assert forall|i: int| 0 <= i < p.len() implies #[trigger] p[i] == fs[i] by {}
        assert(fs[fs.len() - 1] == fs.last());
        if pick_fleet_log(p, character) is None {
            assert forall|i: int| 0 <= i < p.len() implies !fleet_candidate(#[trigger] fs[i], character) by {
                assert(p[i] == fs[i]);
                assert(!fleet_candidate(p[i], character));
            }
        }
        match pick_fleet_log(fs, character) {
            Some(f) => {
                if f == fs.last() {
                    assert(fs[fs.len() - 1] == f);
                } else {
                    let i = choose|i: int| 0 <= i < p.len() && #[trigger] p[i] == f;
                    assert(fs[i] == f);
                }
                assert forall|i: int|
                    0 <= i < fs.len() && fleet_candidate(#[trigger] fs[i], character) implies fs[i].modified
                    <= f.modified by {
                    if i < p.len() {
                        assert(p[i] == fs[i]);
                    }
                }
            },
            None => {
                assert forall|i: int| 0 <= i < fs.len() implies !fleet_candidate(#[trigger] fs[i], character) by {
                    if i < p.len() {
                        assert(p[i] == fs[i]);
                    }
                }
            },
        }
    }
}

/// The picked gamelog is a matching one whose file-name stamp is not before
/// that of any other matching gamelog; there is one exactly when some file
/// matches.
pub proof fn law_newest_gamelog(fs: Seq<LogFileView>, character: Seq<char>)
    ensures
        pick_gamelog(fs, character) is None <==> forall|i: int|
            0 <= i < fs.len() ==> !gamelog_candidate(#[trigger] fs[i], character),
        pick_gamelog(fs, character) matches Some(f) ==> {
            &&& exists|i: int| 0 <= i < fs.len() && #[trigger] fs[i] == f
            &&& gamelog_candidate(f, character)
            &&& forall|i: int|
                0 <= i < fs.len() && gamelog_candidate(#[trigger] fs[i], character) ==> !lex_lt(
                    stamp_of(f.path),
                    stamp_of(fs[i].path),
                )
        },
    decreases fs.len(),
{
    if fs.len() > 0 {
        let p = fs.drop_last();
        law_newest_gamelog(p, character);
        assert(fs[fs.len() - 1] == fs.last());
        match pick_gamelog(fs, character) {
            Some(f) => {
                if f == fs.last() {
                    assert(fs[fs.len() - 1] == f);
                } else {
                    let i = choose|i: int| 0 <= i < p.len() && #[trigger] p[i] == f;
                    assert(fs[i] == f);
                }
                assert forall|i: int|
                    0 <= i < fs.len() && gamelog_candidate(#[trigger] fs[i], character) implies !lex_lt(
                    stamp_of(f.path),
                    stamp_of(fs[i].path),
                ) by {
                    if i < p.len() {
                        assert(p[i] == fs[i]);
                        match pick_gamelog(p, character) {
                            Some(x) => {
                                assert(!lex_lt(stamp_of(x.path), stamp_of(fs[i].path)));
                                if f != x {
                                    assert(!lex_lt(stamp_of(f.path), stamp_of(x.path)));
                                    if lex_lt(stamp_of(f.path), stamp_of(fs[i].path)) {
                                        if stamp_of(x.path) == stamp_of(fs[i].path) {
                                        } else {
                                            lemma_lex_total(stamp_of(x.path), stamp_of(fs[i].path));
                                            lemma_lex_transitive(stamp_of(f.path), stamp_of(fs[i].path), stamp_of(x.path));
                                        }
                                    }
                                }
                            },
                            None => {
                                assert(!gamelog_candidate(p[i], character));
                            },
                        }
                    } else {
                        let a = stamp_of(f.path);
                        let c = stamp_of(fs[i].path);
                        lemma_lex_irreflexive(a);
                        if lex_lt(a, c) && lex_lt(c, a) {
                            lemma_lex_transitive(a, c, a);
                        }
                    }
                }
            },
            None => {
                assert forall|i: int| 0 <= i < fs.len() implies !gamelog_candidate(#[trigger] fs[i], character) by {
                    if i < p.len() {
                        assert(p[i] == fs[i]);
                    }
                }
            },
        }
        if pick_gamelog(p, character) is None {
            assert forall|i: int| 0 <= i < p.len() implies !gamelog_candidate(#[trigger] fs[i], character) by {
                assert(p[i] == fs[i]);
                assert(!gamelog_candidate(p[i], character));
            }
        }
    }
}

} // verus!
