//! The overlay Board: sites with 20-minute timers, Ran marks and Clear.
//!
//! A site's Phase is `Active` until its timer expires, then `Overdue`, or
//! `Ready` once it is also Ran. Only `Ready` sites are Clearable.

use vstd::prelude::*;
use crate::clock::valid_ts;
use crate::idset::IdSet;
use crate::site_id::{site_id, site_id_of};
use crate::text::chars_of;
use crate::types::{
    rows_view, Board, BoardStatus, SiteCandidate, SiteCandidateView, SitePhase, SiteRow,
    SiteRowView, TIMER_MINUTES,
};

verus! {

pub open spec fn phase_for(expired: bool, ran: bool) -> SitePhase {
    if expired && ran {
        SitePhase::Ready
    } else if expired {
        SitePhase::Overdue
    } else {
        SitePhase::Active
    }
}

/// The row a candidate becomes at time `now`.
pub open spec fn row_of(
    log: Seq<char>,
    c: SiteCandidateView,
    ran: Set<Seq<char>>,
    now: int,
) -> SiteRowView {
    let id = site_id_of(log, c);
    let expires = c.posted_at + TIMER_MINUTES * 60;
    let r = ran.contains(id);
    let expired = now >= expires;
    SiteRowView {
        id: id,
        tag: c.tag,
        speaker: c.speaker,
        posted_at: c.posted_at as int,
        expires_at: expires,
        ran: r,
        phase: phase_for(expired, r),
        clearable: expired && r,
    }
}

/// Rows of the candidates that were not cleared, in candidate order.
pub open spec fn board_rows(
    log: Seq<char>,
    cands: Seq<SiteCandidateView>,
    ran: Set<Seq<char>>,
    cleared: Set<Seq<char>>,
    now: int,
) -> Seq<SiteRowView>
    decreases cands.len(),
{
    if cands.len() == 0 {
        seq![]
    } else {
        let prev = board_rows(log, cands.drop_last(), ran, cleared, now);
        let c = cands.last();
        if cleared.contains(site_id_of(log, c)) {
            prev
        } else {
            prev.push(row_of(log, c, ran, now))
        }
    }
}

/// Strict lexicographic order on character sequences (by code point), which
/// is the order of `String::cmp`.
pub open spec fn lex_lt(a: Seq<char>, b: Seq<char>) -> bool
    decreases a.len(),
{
    if a.len() == 0 {
        b.len() > 0
    } else if b.len() == 0 {
        false
    } else if a[0] != b[0] {
        (a[0] as u32) < (b[0] as u32)
    } else {
        lex_lt(a.drop_first(), b.drop_first())
    }
}

/// Row order on the board: soonest expiry first, then by id.
pub open spec fn row_lt(a: SiteRowView, b: SiteRowView) -> bool {
    a.expires_at < b.expires_at || (a.expires_at == b.expires_at && lex_lt(a.id, b.id))
}

pub open spec fn sorted_rows(s: Seq<SiteRowView>) -> bool {
    forall|i: int, j: int| 0 <= i < j < s.len() ==> !row_lt(#[trigger] s[j], #[trigger] s[i])
}

/// Number of Clearable rows.
pub open spec fn count_clearable(s: Seq<SiteRowView>) -> nat
    decreases s.len(),
{
    if s.len() == 0 {
        0
    } else {
        count_clearable(s.drop_last()) + if s.last().clearable {
            1nat
        } else {
            0nat
        }
    }
}

/// Phase and Clearable agree with Ran and expiry at `now`.
pub open spec fn row_timed(r: SiteRowView, now: int) -> bool {
    &&& r.expires_at == r.posted_at + TIMER_MINUTES * 60
    &&& r.phase == phase_for(now >= r.expires_at, r.ran)
    &&& r.clearable == (now >= r.expires_at && r.ran)
}

/// Clearable exactly when Ready; Ready only when Ran.
pub open spec fn row_consistent(r: SiteRowView) -> bool {
    &&& r.clearable <==> r.phase == SitePhase::Ready
    &&& r.phase == SitePhase::Ready ==> r.ran
}

/// Every row consistent and `ready_count` counting the Clearable ones.
pub open spec fn board_wf(b: Board) -> bool {
    &&& forall|i: int| 0 <= i < b.sites@.len() ==> row_consistent(#[trigger] b.sites@[i]@)
    &&& b.ready_count == count_clearable(rows_view(b.sites@)) as u32
}

/// The first row with `id`.
pub open spec fn row_index(s: Seq<SiteRowView>, id: Seq<char>) -> Option<int>
    decreases s.len(),
{
    if s.len() == 0 {
        None
    } else if s[0].id == id {
        Some(0)
    } else {
        match row_index(s.drop_first(), id) {
            Some(k) => Some(k + 1),
            None => None,
        }
    }
}

/// A row after Ran is marked at `now`.
pub open spec fn marked_ran(r: SiteRowView, now: int) -> SiteRowView {
    if now >= r.expires_at {
        SiteRowView { ran: true, phase: SitePhase::Ready, clearable: true, ..r }
    } else {
        SiteRowView { ran: true, ..r }
    }
}

/// Rows without `id`.
pub open spec fn rows_except(s: Seq<SiteRowView>, id: Seq<char>) -> Seq<SiteRowView>
    decreases s.len(),
{
    if s.len() == 0 {
        seq![]
    } else if s.last().id == id {
        rows_except(s.drop_last(), id)
    } else {
        rows_except(s.drop_last(), id).push(s.last())
    }
}

/// Rows that are not Clearable.
pub open spec fn rows_not_clearable(s: Seq<SiteRowView>) -> Seq<SiteRowView>
    decreases s.len(),
{
    if s.len() == 0 {
        seq![]
    } else if s.last().clearable {
        rows_not_clearable(s.drop_last())
    } else {
        rows_not_clearable(s.drop_last()).push(s.last())
    }
}

/// Ids of the Clearable rows.
pub open spec fn clearable_ids(s: Seq<SiteRowView>) -> Set<Seq<char>>
    decreases s.len(),
{
    if s.len() == 0 {
        Set::empty()
    } else if s.last().clearable {
        clearable_ids(s.drop_last()).insert(s.last().id)
    } else {
        clearable_ids(s.drop_last())
    }
}

pub proof fn lemma_lex_irreflexive(a: Seq<char>)
    ensures
        !lex_lt(a, a),
    decreases a.len(),
{
    if a.len() > 0 {
        lemma_lex_irreflexive(a.drop_first());
    }
}

pub proof fn lemma_lex_total(a: Seq<char>, b: Seq<char>)
    requires
        a != b,
    ensures
        lex_lt(a, b) || lex_lt(b, a),
    decreases a.len(),
{
    if a.len() > 0 && b.len() > 0 && a[0] == b[0] {
        if a.drop_first() == b.drop_first() {
            assert(a =~= seq![a[0]] + a.drop_first());
            assert(b =~= seq![b[0]] + b.drop_first());
        }
        lemma_lex_total(a.drop_first(), b.drop_first());
    } else if a.len() == 0 && b.len() == 0 {
        assert(a =~= b);
    } else if a.len() > 0 && b.len() > 0 {
        vstd::utf8::char_u32_cast(a[0], a[0] as u32);
        vstd::utf8::char_u32_cast(b[0], b[0] as u32);
    }
}

pub proof fn lemma_lex_transitive(a: Seq<char>, b: Seq<char>, c: Seq<char>)
    requires
        lex_lt(a, b),
        lex_lt(b, c),
    ensures
        lex_lt(a, c),
    decreases a.len(),
{
    if a.len() > 0 && b.len() > 0 && c.len() > 0 {
        if a[0] == b[0] && b[0] == c[0] {
            lemma_lex_transitive(a.drop_first(), b.drop_first(), c.drop_first());
        }
    }
}

pub proof fn lemma_row_lt_transitive(a: SiteRowView, b: SiteRowView, c: SiteRowView)
    requires
        row_lt(a, b),
        row_lt(b, c),
    ensures
        row_lt(a, c),
{
    if a.expires_at == b.expires_at && b.expires_at == c.expires_at {
        lemma_lex_transitive(a.id, b.id, c.id);
    }
}

pub proof fn lemma_board_rows_props(
    log: Seq<char>,
    cands: Seq<SiteCandidateView>,
    ran: Set<Seq<char>>,
    cleared: Set<Seq<char>>,
    now: int,
)
    ensures
        forall|i: int|
            0 <= i < board_rows(log, cands, ran, cleared, now).len() ==> {
                let r = #[trigger] board_rows(log, cands, ran, cleared, now)[i];
                &&& row_timed(r, now)
                &&& row_consistent(r)
                &&& !cleared.contains(r.id)
                &&& r.ran == ran.contains(r.id)
            },
    decreases cands.len(),
{
    if cands.len() > 0 {
        lemma_board_rows_props(log, cands.drop_last(), ran, cleared, now);
    }
}

proof fn lemma_count_push(s: Seq<SiteRowView>, r: SiteRowView)
    ensures
        count_clearable(s.push(r)) == count_clearable(s) + if r.clearable {
            1nat
        } else {
            0nat
        },
{
    assert(s.push(r).drop_last() =~= s);
}

pub fn lex_lt_exec(a: &Vec<char>, b: &Vec<char>) -> (r: bool)
    ensures
        r == lex_lt(a@, b@),
{
    let mut i: usize = 0;
    assert(a@.skip(0) =~= a@);
    assert(b@.skip(0) =~= b@);
    while i < a.len() && i < b.len() && a[i] == b[i]
        invariant
            0 <= i <= a@.len(),
            i <= b@.len(),
            lex_lt(a@, b@) == lex_lt(a@.skip(i as int), b@.skip(i as int)),
        decreases a@.len() - i,
    {
        let ghost sa = a@.skip(i as int);
        let ghost sb = b@.skip(i as int);
        assert(sa[0] == sb[0]);
        assert(sa.drop_first() =~= a@.skip(i + 1));
        assert(sb.drop_first() =~= b@.skip(i + 1));
        i = i + 1;
    }
    if i == a.len() {
        assert(a@.skip(i as int).len() == 0);
        i < b.len()
    } else if i == b.len() {
        false
    } else {
        assert(a@.skip(i as int)[0] == a@[i as int]);
        assert(b@.skip(i as int)[0] == b@[i as int]);
        (a[i] as u32) < (b[i] as u32)
    }
}

fn row_lt_exec(x: &SiteRow, y: &SiteRow) -> (r: bool)
    ensures
        r == row_lt(x@, y@),
{
    if x.expires_at != y.expires_at {
        x.expires_at < y.expires_at
    } else {
        let a = chars_of(x.id.as_str());
        let b = chars_of(y.id.as_str());
        lex_lt_exec(&a, &b)
    }
}

/// Inserts `row` after every row that does not sort after it.
fn insert_sorted(out: &mut Vec<SiteRow>, row: SiteRow)
    requires
        sorted_rows(rows_view(old(out)@)),
    ensures
        sorted_rows(rows_view(final(out)@)),
        rows_view(final(out)@).to_multiset() == rows_view(old(out)@).to_multiset().insert(row@),
{
    let ghost before = rows_view(out@);
    let mut k: usize = 0;
    while k < out.len() && !row_lt_exec(&row, &out[k])
        invariant
            0 <= k <= out@.len(),
            out@ == old(out)@,
            before == rows_view(out@),
            forall|i: int| 0 <= i < k ==> !row_lt(row@, #[trigger] before[i]),
        decreases out@.len() - k,
    {
        k = k + 1;
    }
    out.insert(k, row);
    proof {
        let after = rows_view(out@);
        assert(after =~= before.insert(k as int, row@));
        vstd::seq_lib::to_multiset_insert(before, k as int, row@);
        assert forall|i: int, j: int| 0 <= i < j < after.len() implies !row_lt(
            #[trigger] after[j],
            #[trigger] after[i],
        ) by {
            if j < k {
                assert(after[i] == before[i] && after[j] == before[j]);
            } else if j == k {
                assert(after[i] == before[i]);
                assert(after[j] == row@);
                if row_lt(row@, before[i]) {
                }
            } else if i == k {
                assert(after[j] == before[j - 1]);
                assert(row_lt(row@, before[k as int]));
                if j - 1 > k {
                    assert(!row_lt(before[j - 1], before[k as int]));
                }
                if row_lt(before[j - 1], row@) {
                    if j - 1 == k {
                        lemma_row_lt_transitive(before[j - 1], row@, before[k as int]);
                        lemma_lex_irreflexive(before[k as int].id);
                    } else {
                        lemma_row_lt_transitive(before[j - 1], row@, before[k as int]);
                    }
                }
            } else if i < k {
                assert(after[i] == before[i]);
                assert(after[j] == before[j - 1]);
            } else {
                assert(after[i] == before[i - 1]);
                assert(after[j] == before[j - 1]);
            }
        }
    }
}

/// Number of Clearable rows, as the board stores it.
fn ready_count_of(sites: &Vec<SiteRow>) -> (r: u32)
    ensures
        r == count_clearable(rows_view(sites@)) as u32,
{
    let mut n: usize = 0;
    let mut i: usize = 0;
    while i < sites.len()
        invariant
            0 <= i <= sites@.len(),
            n == count_clearable(rows_view(sites@).take(i as int)),
            n <= i,
        decreases sites@.len() - i,
    {
        proof {
            assert(rows_view(sites@).take(i + 1) =~= rows_view(sites@).take(i as int).push(
                sites@[i as int]@,
            ));
            lemma_count_push(rows_view(sites@).take(i as int), sites@[i as int]@);
        }
        if sites[i].clearable {
            n = n + 1;
        }
        i = i + 1;
    }
    assert(rows_view(sites@).take(i as int) =~= rows_view(sites@));
    n as u32
}

/// Build the Board for a fleet log's candidates at time `now`: cleared sites
/// are left out, the rest sorted by expiry then id.
pub fn build_board(
    status: BoardStatus,
    fleet_log_id: &str,
    candidates: &Vec<SiteCandidate>,
    ran_ids: &IdSet,
    cleared_ids: &IdSet,
    now: i64,
) -> (b: Board)
    requires
        forall|i: int|
            0 <= i < candidates@.len() ==> valid_ts((#[trigger] candidates@[i]).posted_at as int)
                && valid_ts(candidates@[i].posted_at + TIMER_MINUTES * 60),
    ensures
        b.status == status,
        b.updated_at == now,
        sorted_rows(rows_view(b.sites@)),
        rows_view(b.sites@).to_multiset() == board_rows(
            fleet_log_id@,
            candidates@.map_values(|c: SiteCandidate| c@),
            ran_ids@,
            cleared_ids@,
            now as int,
        ).to_multiset(),
        forall|i: int|
            0 <= i < b.sites@.len() ==> {
                let r = (#[trigger] b.sites@[i])@;
                &&& row_timed(r, now as int)
                &&& !cleared_ids@.contains(r.id)
                &&& r.ran == ran_ids@.contains(r.id)
            },
        board_wf(b),
{
    let ghost cands = candidates@.map_values(|c: SiteCandidate| c@);
    let ghost rows = board_rows(fleet_log_id@, cands, ran_ids@, cleared_ids@, now as int);
    let mut sites: Vec<SiteRow> = Vec::new();
    let mut i: usize = 0;
    assert(cands.take(0) =~= Seq::<SiteCandidateView>::empty());
    assert(rows_view(sites@) =~= Seq::<SiteRowView>::empty());
    while i < candidates.len()
        invariant
            0 <= i <= candidates@.len(),
            cands == candidates@.map_values(|c: SiteCandidate| c@),
            forall|j: int|
                0 <= j < candidates@.len() ==> valid_ts((#[trigger] candidates@[j]).posted_at as int)
                    && valid_ts(candidates@[j].posted_at + TIMER_MINUTES * 60),
            sorted_rows(rows_view(sites@)),
            rows_view(sites@).to_multiset() == board_rows(
                fleet_log_id@,
                cands.take(i as int),
                ran_ids@,
                cleared_ids@,
                now as int,
            ).to_multiset(),
        decreases candidates@.len() - i,
    {
        let c = &candidates[i];
        let ghost prev = board_rows(
            fleet_log_id@,
            cands.take(i as int),
            ran_ids@,
            cleared_ids@,
            now as int,
        );
        assert(cands.take(i + 1).drop_last() =~= cands.take(i as int));
        assert(cands.take(i + 1).last() == c@);
        let id = site_id(fleet_log_id, c);
        if !cleared_ids.contains(id.as_str()) {
            let expires_at = c.posted_at + TIMER_MINUTES * 60;
            let ran = ran_ids.contains(id.as_str());
            let expired = now >= expires_at;
            let (phase, clearable) = if expired && ran {
                (SitePhase::Ready, true)
            } else if expired {
                (SitePhase::Overdue, false)
            } else {
                (SitePhase::Active, false)
            };
            let row = SiteRow {
                id,
                tag: c.tag.clone(),
                speaker: c.speaker.clone(),
                posted_at: c.posted_at,
                expires_at,
                ran,
                phase,
                clearable,
            };
            assert(row@ == row_of(fleet_log_id@, c@, ran_ids@, now as int));
            proof {
                vstd::seq_lib::to_multiset_build(prev, row@);
            }
            insert_sorted(&mut sites, row);
        }
        i = i + 1;
    }
    assert(cands.take(candidates@.len() as int) =~= cands);
    proof {
        lemma_board_rows_props(fleet_log_id@, cands, ran_ids@, cleared_ids@, now as int);
        let sv = rows_view(sites@);
        assert forall|i: int| 0 <= i < sites@.len() implies {
            let r = (#[trigger] sites@[i])@;
            &&& row_timed(r, now as int)
            &&& row_consistent(r)
            &&& !cleared_ids@.contains(r.id)
            &&& r.ran == ran_ids@.contains(r.id)
        } by {
            assert(sv[i] == sites@[i]@);
            sv.to_multiset_ensures();
            rows.to_multiset_ensures();
            assert(sv.contains(sv[i]));
            assert(sv.to_multiset().count(sv[i]) > 0);
            assert(rows.to_multiset() == sv.to_multiset());
            assert(rows.contains(sv[i]));
            let j = choose|j: int| 0 <= j < rows.len() && rows[j] == sv[i];
        }
    }
    let ready_count = ready_count_of(&sites);
    Board { status, sites, ready_count, updated_at: now }
}


pub proof fn lemma_row_index_at(s: Seq<SiteRowView>, id: Seq<char>, k: int)
    requires
        0 <= k <= s.len(),
        forall|j: int| 0 <= j < k ==> (#[trigger] s[j]).id != id,
        k < s.len() ==> s[k].id == id,
    ensures
        row_index(s, id) == if k < s.len() {
            Some(k)
        } else {
            None::<int>
        },
    decreases k,
{
    if k > 0 {
        let t = s.drop_first();
        assert forall|j: int| 0 <= j < k - 1 implies (#[trigger] t[j]).id != id by {
            assert(t[j] == s[j + 1]);
        }
        if k < s.len() {
            assert(t[k - 1] == s[k]);
        }
        assert(s[0].id != id);
        lemma_row_index_at(t, id, k - 1);
    }
}

pub proof fn lemma_row_index_props(s: Seq<SiteRowView>, id: Seq<char>)
    ensures
        row_index(s, id) matches Some(k) ==> 0 <= k < s.len() && s[k].id == id && forall|j: int|
            0 <= j < k ==> (#[trigger] s[j]).id != id,
        row_index(s, id) is None ==> forall|j: int| 0 <= j < s.len() ==> (#[trigger] s[j]).id != id,
    decreases s.len(),
{
    if s.len() > 0 {
        let t = s.drop_first();
        lemma_row_index_props(t, id);
        assert forall|j: int| 0 < j < s.len() implies s[j] == t[j - 1] by {}
    }
}

/// Marking Ran makes a row Clearable exactly when its timer has run out
/// (or it already was): a Clear right after then removes it, and before its
/// timer runs out leaves it on the board. The row keeps its place.
pub proof fn law_mark_ran_then_clear(rows: Seq<SiteRowView>, id: Seq<char>, now: int)
    requires
        row_index(rows, id) is Some,
    ensures
        ({
            let k = row_index(rows, id)->0;
            let after = rows.update(k, marked_ran(rows[k], now));
            &&& row_index(after, id) == Some(k)
            &&& after[k].clearable == (now >= rows[k].expires_at || rows[k].clearable)
            &&& after[k].ran
        }),
{
    lemma_row_index_props(rows, id);
    let k = row_index(rows, id)->0;
    let after = rows.update(k, marked_ran(rows[k], now));
    assert forall|j: int| 0 <= j < k implies (#[trigger] after[j]).id != id by {
        assert(after[j] == rows[j]);
    }
    lemma_row_index_at(after, id, k);
}

proof fn lemma_rows_except_push(s: Seq<SiteRowView>, r: SiteRowView, id: Seq<char>)
    ensures
        rows_except(s.push(r), id) == if r.id == id {
            rows_except(s, id)
        } else {
            rows_except(s, id).push(r)
        },
{
    assert(s.push(r).drop_last() =~= s);
}

proof fn lemma_not_clearable_push(s: Seq<SiteRowView>, r: SiteRowView)
    ensures
        rows_not_clearable(s.push(r)) == if r.clearable {
            rows_not_clearable(s)
        } else {
            rows_not_clearable(s).push(r)
        },
        clearable_ids(s.push(r)) == if r.clearable {
            clearable_ids(s).insert(r.id)
        } else {
            clearable_ids(s)
        },
{
    assert(s.push(r).drop_last() =~= s);
}

pub proof fn lemma_not_clearable_count(s: Seq<SiteRowView>)
    ensures
        count_clearable(rows_not_clearable(s)) == 0,
        forall|i: int|
            0 <= i < rows_not_clearable(s).len() ==> !(#[trigger] rows_not_clearable(s)[i]).clearable,
        forall|i: int|
            0 <= i < rows_not_clearable(s).len() ==> s.contains(#[trigger] rows_not_clearable(s)[i]),
    decreases s.len(),
{
    if s.len() > 0 {
        let p = s.drop_last();
        lemma_not_clearable_count(p);
        if !s.last().clearable {
            lemma_count_push(rows_not_clearable(p), s.last());
            assert forall|i: int| 0 <= i < rows_not_clearable(s).len() implies s.contains(
                #[trigger] rows_not_clearable(s)[i],
            ) by {
                if i < rows_not_clearable(p).len() {
                    assert(p.contains(rows_not_clearable(p)[i]));
                    let j = choose|j: int| 0 <= j < p.len() && p[j] == rows_not_clearable(p)[i];
                    assert(s[j] == p[j]);
                } else {
                    assert(s[s.len() - 1] == s.last());
                }
            }
        } else {
            assert forall|i: int| 0 <= i < rows_not_clearable(s).len() implies s.contains(
                #[trigger] rows_not_clearable(s)[i],
            ) by {
                assert(p.contains(rows_not_clearable(p)[i]));
                let j = choose|j: int| 0 <= j < p.len() && p[j] == rows_not_clearable(p)[i];
                assert(s[j] == p[j]);
            }
        }
    }
}

pub proof fn lemma_rows_except_sub(s: Seq<SiteRowView>, id: Seq<char>)
    ensures
        forall|i: int|
            0 <= i < rows_except(s, id).len() ==> s.contains(#[trigger] rows_except(s, id)[i]),
        forall|i: int| 0 <= i < rows_except(s, id).len() ==> (#[trigger] rows_except(s, id)[i]).id != id,
    decreases s.len(),
{
    if s.len() > 0 {
        let p = s.drop_last();
        lemma_rows_except_sub(p, id);
        assert forall|i: int| 0 <= i < rows_except(s, id).len() implies s.contains(
            #[trigger] rows_except(s, id)[i],
        ) by {
            if i < rows_except(p, id).len() {
                assert(p.contains(rows_except(p, id)[i]));
                let j = choose|j: int| 0 <= j < p.len() && p[j] == rows_except(p, id)[i];
                assert(s[j] == p[j]);
            } else {
                assert(s[s.len() - 1] == s.last());
            }
        }
    }
}

fn row_copy(r: &SiteRow) -> (c: SiteRow)
    ensures
        c@ == r@,
{
    SiteRow {
        id: r.id.clone(),
        tag: r.tag.clone(),
        speaker: r.speaker.clone(),
        posted_at: r.posted_at,
        expires_at: r.expires_at,
        ran: r.ran,
        phase: r.phase,
        clearable: r.clearable,
    }
}

/// Index of the first row with `id`.
fn find_row(sites: &Vec<SiteRow>, id: &str) -> (r: Option<usize>)
    ensures
        match r {
            Some(k) => k < sites@.len() && row_index(rows_view(sites@), id@) == Some(k as int),
            None => row_index(rows_view(sites@), id@) is None,
        },
{
    let key = String::from_str(id);
    let ghost rows = rows_view(sites@);
    let mut k: usize = 0;
    while k < sites.len()
        invariant
            0 <= k <= sites@.len(),
            key@ == id@,
            rows == rows_view(sites@),
            forall|j: int| 0 <= j < k ==> (#[trigger] rows[j]).id != id@,
        decreases sites@.len() - k,
    {
        if sites[k].id == key {
            proof {
                lemma_row_index_at(rows, id@, k as int);
            }
            return Some(k);
        }
        k = k + 1;
    }
    proof {
        lemma_row_index_at(rows, id@, k as int);
    }
    None
}

/// Mark a site Ran at `now`: the id joins `ran_ids`; its row (the first with
/// that id) becomes Ran, and Ready and Clearable if its timer has expired.
pub fn mark_ran(board: &mut Board, site_id: &str, ran_ids: &mut IdSet, now: i64)
    ensures
        final(ran_ids)@ == old(ran_ids)@.insert(site_id@),
        rows_view(final(board).sites@) == match row_index(rows_view(old(board).sites@), site_id@) {
            Some(k) => rows_view(old(board).sites@).update(
                k,
                marked_ran(rows_view(old(board).sites@)[k], now as int),
            ),
            None => rows_view(old(board).sites@),
        },
        final(board).ready_count == count_clearable(rows_view(final(board).sites@)) as u32,
        final(board).updated_at == now,
        final(board).status == old(board).status,
        board_wf(*old(board)) ==> board_wf(*final(board)),
{
    ran_ids.insert(site_id);
    let ghost old_rows = rows_view(board.sites@);
    match find_row(&board.sites, site_id) {
        Some(k) => {
            let expired = now >= board.sites[k].expires_at;
            let mut row = row_copy(&board.sites[k]);
            row.ran = true;
            if expired {
                row.phase = SitePhase::Ready;
                row.clearable = true;
            }
            assert(row@ == marked_ran(old_rows[k as int], now as int));
            board.sites.set(k, row);
            assert(rows_view(board.sites@) =~= old_rows.update(k as int, row@));
        },
        None => {},
    }
    board.ready_count = ready_count_of(&board.sites);
    board.updated_at = now;
    proof {
        if board_wf(*old(board)) {
            assert forall|i: int| 0 <= i < board.sites@.len() implies row_consistent(
                #[trigger] board.sites@[i]@,
            ) by {
                assert(rows_view(board.sites@)[i] == board.sites@[i]@);
                assert(old_rows[i] == old(board).sites@[i]@);
            }
        }
    }
}

/// Clear a site: only a Clearable one (the first row with the id decides) is
/// removed, with every row carrying its id, and its id joins `cleared_ids`.
pub fn clear_site(board: &mut Board, site_id: &str, cleared_ids: &mut IdSet, now: i64)
    ensures
        ({
            let old_rows = rows_view(old(board).sites@);
            let clearable = match row_index(old_rows, site_id@) {
                Some(k) => old_rows[k].clearable,
                None => false,
            };
            &&& clearable ==> {
                &&& final(cleared_ids)@ == old(cleared_ids)@.insert(site_id@)
                &&& rows_view(final(board).sites@) == rows_except(old_rows, site_id@)
                &&& final(board).ready_count == count_clearable(rows_view(final(board).sites@)) as u32
            }
            &&& !clearable ==> {
                &&& final(cleared_ids)@ == old(cleared_ids)@
                &&& final(board).sites@ == old(board).sites@
                &&& final(board).ready_count == old(board).ready_count
            }
        }),
        final(board).updated_at == now,
        final(board).status == old(board).status,
        board_wf(*old(board)) ==> board_wf(*final(board)),
{
    let ghost old_rows = rows_view(board.sites@);
    let clearable = match find_row(&board.sites, site_id) {
        Some(k) => board.sites[k].clearable,
        None => false,
    };
    if !clearable {
        board.updated_at = now;
        return;
    }
    cleared_ids.insert(site_id);
    let key = String::from_str(site_id);
    let mut kept: Vec<SiteRow> = Vec::new();
    let mut i: usize = 0;
    while i < board.sites.len()
        invariant
            0 <= i <= board.sites@.len(),
            key@ == site_id@,
            old_rows == rows_view(board.sites@),
            rows_view(kept@) == rows_except(old_rows.take(i as int), site_id@),
        decreases board.sites@.len() - i,
    {
        proof {
            assert(old_rows.take(i + 1) =~= old_rows.take(i as int).push(old_rows[i as int]));
            lemma_rows_except_push(old_rows.take(i as int), old_rows[i as int], site_id@);
        }
        if board.sites[i].id != key {
            let r = row_copy(&board.sites[i]);
            kept.push(r);
            assert(rows_view(kept@) =~= rows_view(kept@.drop_last()).push(r@));
        }
        i = i + 1;
    }
    assert(old_rows.take(i as int) =~= old_rows);
    board.sites = kept;
    board.ready_count = ready_count_of(&board.sites);
    board.updated_at = now;
    proof {
        if board_wf(*old(board)) {
            lemma_rows_except_sub(old_rows, site_id@);
            assert forall|i: int| 0 <= i < board.sites@.len() implies row_consistent(
                #[trigger] board.sites@[i]@,
            ) by {
                let nr = rows_view(board.sites@);
                assert(nr[i] == board.sites@[i]@);
                assert(old_rows.contains(nr[i]));
                let j = choose|j: int| 0 <= j < old_rows.len() && old_rows[j] == nr[i];
                assert(old_rows[j] == old(board).sites@[j]@);
            }
        }
    }
}

/// Clear every Clearable site: their ids join `cleared_ids`, the other rows
/// stay in order, and no Clearable row is left.
pub fn clear_ready(board: &mut Board, cleared_ids: &mut IdSet, now: i64)
    ensures
        final(cleared_ids)@ == old(cleared_ids)@.union(clearable_ids(rows_view(old(board).sites@))),
        rows_view(final(board).sites@) == rows_not_clearable(rows_view(old(board).sites@)),
        forall|i: int| 0 <= i < final(board).sites@.len() ==> !(#[trigger] final(board).sites@[i]).clearable,
        final(board).ready_count == 0,
        final(board).updated_at == now,
        final(board).status == old(board).status,
        board_wf(*old(board)) ==> board_wf(*final(board)),
{
    let ghost old_rows = rows_view(board.sites@);
    let mut kept: Vec<SiteRow> = Vec::new();
    let mut i: usize = 0;
    assert(old_rows.take(0) =~= Seq::<SiteRowView>::empty());
    assert(rows_view(kept@) =~= Seq::<SiteRowView>::empty());
    assert(old(cleared_ids)@.union(Set::empty()) =~= old(cleared_ids)@);
    while i < board.sites.len()
        invariant
            0 <= i <= board.sites@.len(),
            old_rows == rows_view(board.sites@),
            rows_view(kept@) == rows_not_clearable(old_rows.take(i as int)),
            cleared_ids@ == old(cleared_ids)@.union(clearable_ids(old_rows.take(i as int))),
        decreases board.sites@.len() - i,
    {
        proof {
            assert(old_rows.take(i + 1) =~= old_rows.take(i as int).push(old_rows[i as int]));
            lemma_not_clearable_push(old_rows.take(i as int), old_rows[i as int]);
        }
        if board.sites[i].clearable {
            cleared_ids.insert(board.sites[i].id.as_str());
            assert(cleared_ids@ =~= old(cleared_ids)@.union(clearable_ids(old_rows.take(i + 1))));
        } else {
            let r = row_copy(&board.sites[i]);
            kept.push(r);
            assert(rows_view(kept@) =~= rows_view(kept@.drop_last()).push(r@));
        }
        i = i + 1;
    }
    assert(old_rows.take(i as int) =~= old_rows);
    board.sites = kept;
    board.ready_count = 0;
    board.updated_at = now;
    proof {
        lemma_not_clearable_count(old_rows);
        let nr = rows_view(board.sites@);
        assert forall|i: int| 0 <= i < board.sites@.len() implies !(
        #[trigger] board.sites@[i]).clearable by {
            assert(nr[i] == board.sites@[i]@);
        }
        if board_wf(*old(board)) {
            assert forall|i: int| 0 <= i < board.sites@.len() implies row_consistent(
                #[trigger] board.sites@[i]@,
            ) by {
                assert(nr[i] == board.sites@[i]@);
                assert(old_rows.contains(nr[i]));
                let j = choose|j: int| 0 <= j < old_rows.len() && old_rows[j] == nr[i];
                assert(old_rows[j] == old(board).sites@[j]@);
            }
        }
    }
}

} // verus!
