//! Character-level text helpers shared by the log, wallet and manifest parsers.
//!
//! Text is read once into a `Vec<char>`; parsers then work on index ranges of
//! that vector and build output `String`s from ranges.

use vstd::prelude::*;

verus! {

/// Unicode `White_Space`, the property behind `char::is_whitespace` and `str::trim`.
pub open spec fn is_ws(c: char) -> bool {
    let u = c as u32;
    ||| 0x9 <= u <= 0xd
    ||| u == 0x20
    ||| u == 0x85
    ||| u == 0xa0
    ||| u == 0x1680
    ||| 0x2000 <= u <= 0x200a
    ||| u == 0x2028
    ||| u == 0x2029
    ||| u == 0x202f
    ||| u == 0x205f
    ||| u == 0x3000
}

pub fn is_ws_exec(c: char) -> (r: bool)
    ensures
        r == is_ws(c),
{
    let u = c as u32;
    (0x9 <= u && u <= 0xd) || u == 0x20 || u == 0x85 || u == 0xa0 || u == 0x1680 || (0x2000 <= u
        && u <= 0x200a) || u == 0x2028 || u == 0x2029 || u == 0x202f || u == 0x205f || u == 0x3000
}

/// `s` without its leading characters that satisfy `p`.
pub open spec fn drop_while(s: Seq<char>, p: spec_fn(char) -> bool) -> Seq<char>
    decreases s.len(),
{
    if s.len() > 0 && p(s[0]) {
        drop_while(s.drop_first(), p)
    } else {
        s
    }
}

/// `s` without its trailing characters that satisfy `p`.
pub open spec fn drop_while_end(s: Seq<char>, p: spec_fn(char) -> bool) -> Seq<char>
    decreases s.len(),
{
    if s.len() > 0 && p(s.last()) {
        drop_while_end(s.drop_last(), p)
    } else {
        s
    }
}

pub open spec fn ws_pred() -> spec_fn(char) -> bool {
    |c: char| is_ws(c)
}

pub open spec fn char_pred(x: char) -> spec_fn(char) -> bool {
    |c: char| c == x
}

/// `str::trim`: both ends without whitespace.
pub open spec fn trim(s: Seq<char>) -> Seq<char> {
    drop_while_end(drop_while(s, ws_pred()), ws_pred())
}

/// `str::trim_start_matches(c)` for a single character `c`.
pub open spec fn strip_leading(s: Seq<char>, c: char) -> Seq<char> {
    drop_while(s, char_pred(c))
}

pub proof fn lemma_drop_while_at(s: Seq<char>, p: spec_fn(char) -> bool, k: int)
    requires
        0 <= k <= s.len(),
        forall|j: int| 0 <= j < k ==> #[trigger] p(s[j]),
        k == s.len() || !p(s[k]),
    ensures
        drop_while(s, p) == s.skip(k),
    decreases k,
{
    if k == 0 {
        assert(s.skip(0) =~= s);
    } else {
        assert(p(s[0]));
        let t = s.drop_first();
        assert forall|j: int| 0 <= j < k - 1 implies #[trigger] p(t[j]) by {
            assert(t[j] == s[j + 1]);
            assert(p(s[j + 1]));
        }
        if k < s.len() {
            assert(t[k - 1] == s[k]);
        }
        lemma_drop_while_at(t, p, k - 1);
        assert(t.skip(k - 1) =~= s.skip(k));
    }
}

pub proof fn lemma_drop_while_end_at(s: Seq<char>, p: spec_fn(char) -> bool, k: int)
    requires
        0 <= k <= s.len(),
        forall|j: int| k <= j < s.len() ==> #[trigger] p(s[j]),
        k == 0 || !p(s[k - 1]),
    ensures
        drop_while_end(s, p) == s.take(k),
    decreases s.len() - k,
{
    if k == s.len() {
        assert(s.take(k) =~= s);
    } else {
        assert(p(s[s.len() - 1]));
        let t = s.drop_last();
        assert forall|j: int| k <= j < t.len() implies #[trigger] p(t[j]) by {
            assert(t[j] == s[j]);
            assert(p(s[j]));
        }
        if k > 0 {
            assert(t[k - 1] == s[k - 1]);
        }
        lemma_drop_while_end_at(t, p, k);
        assert(t.take(k) =~= s.take(k));
    }
}


/// Index of the first `c` in `s`, or `s.len()` when there is none.
pub open spec fn first_index(s: Seq<char>, c: char) -> nat
    decreases s.len(),
{
    if s.len() == 0 {
        0
    } else if s[0] == c {
        0
    } else {
        1 + first_index(s.drop_first(), c)
    }
}

pub proof fn lemma_first_index_at(s: Seq<char>, c: char, k: int)
    requires
        0 <= k <= s.len(),
        forall|j: int| 0 <= j < k ==> #[trigger] s[j] != c,
        k == s.len() || s[k] == c,
    ensures
        first_index(s, c) == k,
    decreases k,
{
    if k > 0 {
        let t = s.drop_first();
        assert forall|j: int| 0 <= j < k - 1 implies #[trigger] t[j] != c by {
            assert(t[j] == s[j + 1]);
        }
        if k < s.len() {
            assert(t[k - 1] == s[k]);
        }
        assert(s[0] != c);
        lemma_first_index_at(t, c, k - 1);
    }
}

/// The pieces of `s` between occurrences of `sep` (`str::split` on a char);
/// the last piece is what follows the last `sep`, possibly empty.
pub open spec fn split_on(s: Seq<char>, sep: char) -> Seq<Seq<char>>
    decreases s.len(),
{
    let i = first_index(s, sep);
    if i >= s.len() {
        seq![s]
    } else {
        seq![s.take(i as int)] + split_on(s.skip(i as int + 1), sep)
    }
}

pub proof fn lemma_split_len(s: Seq<char>, sep: char)
    ensures
        split_on(s, sep).len() <= s.len() + 1,
    decreases s.len(),
{
    let i = first_index(s, sep);
    if i < s.len() {
        lemma_split_len(s.skip(i as int + 1), sep);
    }
}

/// The pieces of `s` between `'\n'` characters: the lines that a
/// multi-line `^...$` pattern sees.
pub open spec fn nl_pieces(s: Seq<char>) -> Seq<Seq<char>> {
    split_on(s, '\n')
}

/// Removes one trailing `'\r'`.
pub open spec fn strip_cr(s: Seq<char>) -> Seq<char> {
    if s.len() > 0 && s.last() == '\r' {
        s.drop_last()
    } else {
        s
    }
}

/// `str::lines`: split at `'\n'`, a `'\r'` right before a `'\n'` is dropped,
/// and a final empty line is not produced.
pub open spec fn str_lines(s: Seq<char>) -> Seq<Seq<char>>
    decreases s.len(),
{
    if s.len() == 0 {
        seq![]
    } else {
        let i = first_index(s, '\n');
        if i >= s.len() {
            seq![s]
        } else {
            seq![strip_cr(s.take(i as int))] + str_lines(s.skip(i as int + 1))
        }
    }
}

/// The texts of `ranges` within `v`.
pub open spec fn range_texts(v: Seq<char>, ranges: Seq<(usize, usize)>) -> Seq<Seq<char>> {
    ranges.map_values(|r: (usize, usize)| v.subrange(r.0 as int, r.1 as int))
}

pub open spec fn ranges_within(ranges: Seq<(usize, usize)>, hi: int) -> bool {
    forall|i: int| 0 <= i < ranges.len() ==> (#[trigger] ranges[i]).0 <= ranges[i].1 <= hi
}

/// Position of the first `c` in `v[lo..hi]`, or `hi`.
pub fn find_char(v: &Vec<char>, lo: usize, hi: usize, c: char) -> (r: usize)
    requires
        lo <= hi <= v@.len(),
    ensures
        lo <= r <= hi,
        first_index(v@.subrange(lo as int, hi as int), c) == r - lo,
        forall|j: int| lo <= j < r ==> #[trigger] v@[j] != c,
        r < hi ==> v@[r as int] == c,
{
    let mut k = lo;
    while k < hi && v[k] != c
        invariant
            lo <= k <= hi <= v@.len(),
            forall|j: int| lo <= j < k ==> #[trigger] v@[j] != c,
        decreases hi - k,
    {
        k = k + 1;
    }
    proof {
        let s = v@.subrange(lo as int, hi as int);
        assert forall|j: int| 0 <= j < k - lo implies #[trigger] s[j] != c by {
            assert(s[j] == v@[lo + j]);
        }
        if k < hi {
            assert(s[k - lo] == v@[k as int]);
        }
        lemma_first_index_at(s, c, k - lo);
    }
    k
}

/// Ranges of the `sep`-separated pieces of `v[lo..hi]`.
pub fn piece_ranges(v: &Vec<char>, lo: usize, hi: usize, sep: char) -> (r: Vec<(usize, usize)>)
    requires
        lo <= hi <= v@.len(),
    ensures
        ranges_within(r@, hi as int),
        r@.len() >= 1,
        forall|i: int| 0 <= i < r@.len() ==> lo <= (#[trigger] r@[i]).0,
        range_texts(v@, r@) == split_on(v@.subrange(lo as int, hi as int), sep),
{
    let mut r: Vec<(usize, usize)> = Vec::new();
    let mut pos = lo;
    loop
        invariant
            lo <= pos <= hi <= v@.len(),
            ranges_within(r@, hi as int),
            forall|i: int| 0 <= i < r@.len() ==> lo <= (#[trigger] r@[i]).0,
            range_texts(v@, r@) + split_on(v@.subrange(pos as int, hi as int), sep) == split_on(
                v@.subrange(lo as int, hi as int),
                sep,
            ),
        decreases hi - pos,
    {
        let ghost rest = v@.subrange(pos as int, hi as int);
        let ghost before = range_texts(v@, r@);
        let k = find_char(v, pos, hi, sep);
        if k == hi {
            r.push((pos, hi));
            proof {
                assert(range_texts(v@, r@) =~= before.push(rest));
                assert(split_on(rest, sep) =~= seq![rest]);
            }
            return r;
        }
        r.push((pos, k));
        proof {
            assert(rest.take(k - pos) =~= v@.subrange(pos as int, k as int));
            assert(rest.skip(k - pos + 1) =~= v@.subrange(k + 1, hi as int));
            assert(range_texts(v@, r@) =~= before.push(v@.subrange(pos as int, k as int)));
            assert(before + split_on(rest, sep) =~= before.push(v@.subrange(pos as int, k as int))
                + split_on(v@.subrange(k + 1, hi as int), sep));
        }
        pos = k + 1;
    }
}

/// Ranges of the `'\n'`-separated pieces of `v[lo..hi]`.
pub fn nl_piece_ranges(v: &Vec<char>, lo: usize, hi: usize) -> (r: Vec<(usize, usize)>)
    requires
        lo <= hi <= v@.len(),
    ensures
        ranges_within(r@, hi as int),
        range_texts(v@, r@) == nl_pieces(v@.subrange(lo as int, hi as int)),
{
    piece_ranges(v, lo, hi, '\n')
}

/// Ranges of the lines (`str::lines`) of `v[lo..hi]`.
pub fn line_ranges(v: &Vec<char>, lo: usize, hi: usize) -> (r: Vec<(usize, usize)>)
    requires
        lo <= hi <= v@.len(),
    ensures
        ranges_within(r@, hi as int),
        forall|i: int| 0 <= i < r@.len() ==> lo <= (#[trigger] r@[i]).0,
        range_texts(v@, r@) == str_lines(v@.subrange(lo as int, hi as int)),
{
    let mut r: Vec<(usize, usize)> = Vec::new();
    let mut pos = lo;
    loop
        invariant
            lo <= pos <= hi <= v@.len(),
            ranges_within(r@, hi as int),
            forall|i: int| 0 <= i < r@.len() ==> lo <= (#[trigger] r@[i]).0,
            range_texts(v@, r@) + str_lines(v@.subrange(pos as int, hi as int)) == str_lines(
                v@.subrange(lo as int, hi as int),
            ),
        decreases hi - pos,
    {
        let ghost rest = v@.subrange(pos as int, hi as int);
        let ghost before = range_texts(v@, r@);
        if pos == hi {
            proof {
                assert(str_lines(rest) =~= Seq::<Seq<char>>::empty());
                assert(before + str_lines(rest) =~= before);
            }
            return r;
        }
        let k = find_char(v, pos, hi, '\n');
        if k == hi {
            r.push((pos, hi));
            proof {
                assert(range_texts(v@, r@) =~= before.push(rest));
                assert(str_lines(rest) =~= seq![rest]);
            }
            return r;
        }
        let end = if k > pos && v[k - 1] == '\r' {
            k - 1
        } else {
            k
        };
        r.push((pos, end));
        proof {
            let piece = rest.take(k - pos);
            assert(piece =~= v@.subrange(pos as int, k as int));
            assert(strip_cr(piece) =~= v@.subrange(pos as int, end as int));
            assert(rest.skip(k - pos + 1) =~= v@.subrange(k + 1, hi as int));
            assert(range_texts(v@, r@) =~= before.push(v@.subrange(pos as int, end as int)));
            assert(before + str_lines(rest) =~= before.push(v@.subrange(pos as int, end as int))
                + str_lines(v@.subrange(k + 1, hi as int)));
        }
        pos = k + 1;
    }
}


/// `p` occurs in `s` starting at index `i`.
pub open spec fn occurs_at(s: Seq<char>, p: Seq<char>, i: int) -> bool {
    0 <= i && i + p.len() <= s.len() && s.subrange(i, i + p.len()) == p
}

pub open spec fn seq_starts_with(s: Seq<char>, p: Seq<char>) -> bool {
    occurs_at(s, p, 0)
}

pub open spec fn seq_ends_with(s: Seq<char>, p: Seq<char>) -> bool {
    occurs_at(s, p, s.len() - p.len())
}

/// The first index at or after `i` where `p` occurs in `s`.
pub open spec fn find_from(s: Seq<char>, p: Seq<char>, i: int) -> Option<int>
    decreases s.len() - i,
{
    if i < 0 || i + p.len() > s.len() {
        None
    } else if occurs_at(s, p, i) {
        Some(i)
    } else if i >= s.len() {
        None
    } else {
        find_from(s, p, i + 1)
    }
}

/// `str::find`, counted in characters.
pub open spec fn find_seq(s: Seq<char>, p: Seq<char>) -> Option<int> {
    find_from(s, p, 0)
}

/// `str::contains`.
pub open spec fn seq_contains(s: Seq<char>, p: Seq<char>) -> bool {
    find_seq(s, p) is Some
}

pub proof fn lemma_find_from_bounds(s: Seq<char>, p: Seq<char>, i: int)
    ensures
        find_from(s, p, i) matches Some(k) ==> i <= k && occurs_at(s, p, k) && forall|j: int|
            i <= j < k ==> !#[trigger] occurs_at(s, p, j),
    decreases s.len() - i,
{
    if i >= 0 && i + p.len() <= s.len() && !occurs_at(s, p, i) && i < s.len() {
        lemma_find_from_bounds(s, p, i + 1);
    }
}

/// Whether `v[pos..hi]` starts with `p`.
pub fn matches_at(v: &Vec<char>, pos: usize, hi: usize, p: &Vec<char>) -> (r: bool)
    requires
        pos <= hi <= v@.len(),
    ensures
        r == (pos + p@.len() <= hi && v@.subrange(pos as int, pos + p@.len()) == p@),
{
    if p.len() > hi - pos {
        return false;
    }
    let mut i: usize = 0;
    while i < p.len()
        invariant
            pos + p@.len() <= hi <= v@.len(),
            0 <= i <= p@.len(),
            forall|j: int| 0 <= j < i ==> v@[pos + j] == #[trigger] p@[j],
        decreases p@.len() - i,
    {
        if v[pos + i] != p[i] {
            assert(v@.subrange(pos as int, pos + p@.len())[i as int] != p@[i as int]);
            return false;
        }
        i = i + 1;
    }
    assert(v@.subrange(pos as int, pos + p@.len()) =~= p@);
    true
}

/// `find_seq` on `v[lo..hi]`, as an index into `v`.
pub fn find_in(v: &Vec<char>, lo: usize, hi: usize, p: &Vec<char>) -> (r: Option<usize>)
    requires
        lo <= hi <= v@.len(),
    ensures
        match r {
            Some(k) => lo <= k && k + p@.len() <= hi && find_seq(v@.subrange(lo as int, hi as int), p@)
                == Some(k - lo),
            None => find_seq(v@.subrange(lo as int, hi as int), p@) is None,
        },
{
    let ghost s = v@.subrange(lo as int, hi as int);
    if p.len() > hi - lo {
        return None;
    }
    let mut k = lo;
    loop
        invariant
            lo <= k,
            k + p@.len() <= hi <= v@.len(),
            s == v@.subrange(lo as int, hi as int),
            find_seq(s, p@) == find_from(s, p@, k - lo),
        decreases hi - k,
    {
        let m = matches_at(v, k, hi, p);
        if p.len() == 0 {
            assert(v@.subrange(k as int, k as int) =~= p@);
        }
        assert(s.subrange(k - lo, k - lo + p@.len()) =~= v@.subrange(k as int, k + p@.len()));
        if m {
            return Some(k);
        }
        if k + p.len() == hi {
            assert(find_from(s, p@, k - lo + 1) is None);
            return None;
        }
        k = k + 1;
    }
}

/// Whether `v[lo..hi]` contains `p`.
pub fn contains_in(v: &Vec<char>, lo: usize, hi: usize, p: &Vec<char>) -> (r: bool)
    requires
        lo <= hi <= v@.len(),
    ensures
        r == seq_contains(v@.subrange(lo as int, hi as int), p@),
{
    find_in(v, lo, hi, p).is_some()
}

/// The characters in `s`, in order.
pub fn chars_of(s: &str) -> (r: Vec<char>)
    ensures
        r@ == s@,
{
    let mut r: Vec<char> = Vec::new();
    for c in it: s.chars()
        invariant
            r@ == it.seq().take(it.index()),
            it.seq() == s@,
    {
        r.push(c);
    }
    r
}

/// Appends one character (`String::push`).
#[verifier::external_body]
pub(crate) fn push_char(s: &mut String, c: char)
    ensures
        final(s)@ == old(s)@.push(c),
{
    s.push(c);
}

/// A `String` holding `v[lo..hi]`.
pub fn string_of(v: &Vec<char>, lo: usize, hi: usize) -> (r: String)
    requires
        lo <= hi <= v@.len(),
    ensures
        r@ == v@.subrange(lo as int, hi as int),
{
    let mut r = String::new();
    let mut i = lo;
    while i < hi
        invariant
            lo <= i <= hi <= v@.len(),
            r@ == v@.subrange(lo as int, i as int),
        decreases hi - i,
    {
        push_char(&mut r, v[i]);
        assert(v@.subrange(lo as int, i + 1) =~= v@.subrange(lo as int, i as int).push(v@[i as int]));
        i = i + 1;
    }
    r
}

/// Bounds of the trimmed part of `v[lo..hi]`.
pub fn trim_range(v: &Vec<char>, lo: usize, hi: usize) -> (r: (usize, usize))
    requires
        lo <= hi <= v@.len(),
    ensures
        lo <= r.0 <= r.1 <= hi,
        v@.subrange(r.0 as int, r.1 as int) == trim(v@.subrange(lo as int, hi as int)),
{
    let ghost s = v@.subrange(lo as int, hi as int);
    let mut a = lo;
    while a < hi && is_ws_exec(v[a])
        invariant
            lo <= a <= hi <= v@.len(),
            forall|j: int| lo <= j < a ==> is_ws(#[trigger] v@[j]),
        decreases hi - a,
    {
        a = a + 1;
    }
    proof {
        assert forall|j: int| 0 <= j < a - lo implies #[trigger] ws_pred()(s[j]) by {
            assert(s[j] == v@[lo + j]);
        }
        if a < hi {
            assert(s[a - lo] == v@[a as int]);
        }
        lemma_drop_while_at(s, ws_pred(), a - lo);
    }
    let ghost t = s.skip(a - lo);
    assert(t =~= v@.subrange(a as int, hi as int));
    let mut b = hi;
    while b > a && is_ws_exec(v[b - 1])
        invariant
            lo <= a <= b <= hi <= v@.len(),
            forall|j: int| b <= j < hi ==> is_ws(#[trigger] v@[j]),
        decreases b - a,
    {
        b = b - 1;
    }
    proof {
        assert forall|j: int| b - a <= j < t.len() implies #[trigger] ws_pred()(t[j]) by {
            assert(t[j] == v@[a + j]);
        }
        if b > a {
            assert(t[b - a - 1] == v@[b - 1]);
        }
        lemma_drop_while_end_at(t, ws_pred(), b - a);
        assert(t.take(b - a) =~= v@.subrange(a as int, b as int));
    }
    (a, b)
}

/// First index at or after `lo` in `v[lo..hi]` that is not `c`.
pub fn skip_leading(v: &Vec<char>, lo: usize, hi: usize, c: char) -> (r: usize)
    requires
        lo <= hi <= v@.len(),
    ensures
        lo <= r <= hi,
        v@.subrange(r as int, hi as int) == strip_leading(v@.subrange(lo as int, hi as int), c),
{
    let ghost s = v@.subrange(lo as int, hi as int);
    let mut a = lo;
    while a < hi && v[a] == c
        invariant
            lo <= a <= hi <= v@.len(),
            forall|j: int| lo <= j < a ==> #[trigger] v@[j] == c,
        decreases hi - a,
    {
        a = a + 1;
    }
    proof {
        assert forall|j: int| 0 <= j < a - lo implies #[trigger] char_pred(c)(s[j]) by {
            assert(s[j] == v@[lo + j]);
        }
        if a < hi {
            assert(s[a - lo] == v@[a as int]);
        }
        lemma_drop_while_at(s, char_pred(c), a - lo);
        assert(s.skip(a - lo) =~= v@.subrange(a as int, hi as int));
    }
    a
}


/// Index of the first whitespace character of `s`, or `s.len()`.
pub open spec fn first_ws(s: Seq<char>) -> nat
    decreases s.len(),
{
    if s.len() == 0 {
        0
    } else if is_ws(s[0]) {
        0
    } else {
        1 + first_ws(s.drop_first())
    }
}

pub proof fn lemma_first_ws_at(s: Seq<char>, k: int)
    requires
        0 <= k <= s.len(),
        forall|j: int| 0 <= j < k ==> !is_ws(#[trigger] s[j]),
        k == s.len() || is_ws(s[k]),
    ensures
        first_ws(s) == k,
    decreases k,
{
    if k > 0 {
        let t = s.drop_first();
        assert forall|j: int| 0 <= j < k - 1 implies !is_ws(#[trigger] t[j]) by {
            assert(t[j] == s[j + 1]);
        }
        if k < s.len() {
            assert(t[k - 1] == s[k]);
        }
        assert(!is_ws(s[0]));
        lemma_first_ws_at(t, k - 1);
    }
}

/// Position of the first whitespace character in `v[lo..hi]`, or `hi`.
pub fn find_ws(v: &Vec<char>, lo: usize, hi: usize) -> (r: usize)
    requires
        lo <= hi <= v@.len(),
    ensures
        lo <= r <= hi,
        first_ws(v@.subrange(lo as int, hi as int)) == r - lo,
{
    let mut k = lo;
    while k < hi && !is_ws_exec(v[k])
        invariant
            lo <= k <= hi <= v@.len(),
            forall|j: int| lo <= j < k ==> !is_ws(#[trigger] v@[j]),
        decreases hi - k,
    {
        k = k + 1;
    }
    proof {
        let s = v@.subrange(lo as int, hi as int);
        assert forall|j: int| 0 <= j < k - lo implies !is_ws(#[trigger] s[j]) by {
            assert(s[j] == v@[lo + j]);
        }
        if k < hi {
            assert(s[k - lo] == v@[k as int]);
        }
        lemma_first_ws_at(s, k - lo);
    }
    k
}

/// First index at or after `lo` in `v[lo..hi]` that is not whitespace.
pub fn skip_ws(v: &Vec<char>, lo: usize, hi: usize) -> (r: usize)
    requires
        lo <= hi <= v@.len(),
    ensures
        lo <= r <= hi,
        v@.subrange(r as int, hi as int) == drop_while(v@.subrange(lo as int, hi as int), ws_pred()),
{
    let ghost s = v@.subrange(lo as int, hi as int);
    let mut a = lo;
    while a < hi && is_ws_exec(v[a])
        invariant
            lo <= a <= hi <= v@.len(),
            forall|j: int| lo <= j < a ==> is_ws(#[trigger] v@[j]),
        decreases hi - a,
    {
        a = a + 1;
    }
    proof {
        assert forall|j: int| 0 <= j < a - lo implies #[trigger] ws_pred()(s[j]) by {
            assert(s[j] == v@[lo + j]);
        }
        if a < hi {
            assert(s[a - lo] == v@[a as int]);
        }
        lemma_drop_while_at(s, ws_pred(), a - lo);
        assert(s.skip(a - lo) =~= v@.subrange(a as int, hi as int));
    }
    a
}

/// A new vector holding `v[lo..hi]`.
pub fn slice_chars(v: &Vec<char>, lo: usize, hi: usize) -> (r: Vec<char>)
    requires
        lo <= hi <= v@.len(),
    ensures
        r@ == v@.subrange(lo as int, hi as int),
{
    let mut r: Vec<char> = Vec::new();
    let mut i = lo;
    while i < hi
        invariant
            lo <= i <= hi <= v@.len(),
            r@ == v@.subrange(lo as int, i as int),
        decreases hi - i,
    {
        r.push(v[i]);
        assert(v@.subrange(lo as int, i + 1) =~= v@.subrange(lo as int, i as int).push(v@[i as int]));
        i = i + 1;
    }
    r
}

/// Whether `v` holds exactly the characters of `lit`.
pub fn chars_eq_str(v: &Vec<char>, lit: &str) -> (r: bool)
    ensures
        r == (v@ == lit@),
{
    let w = chars_of(lit);
    if v.len() != w.len() {
        return false;
    }
    let mut i: usize = 0;
    while i < v.len()
        invariant
            v@.len() == w@.len(),
            w@ == lit@,
            0 <= i <= v@.len(),
            forall|j: int| 0 <= j < i ==> v@[j] == w@[j],
        decreases v@.len() - i,
    {
        if v[i] != w[i] {
            return false;
        }
        i = i + 1;
    }
    assert(v@ =~= w@);
    true
}

/// Whether `v` has the character `c`.
pub fn has_char(v: &Vec<char>, c: char) -> (r: bool)
    ensures
        r == v@.contains(c),
{
    let k = find_char(v, 0, v.len(), c);
    if k < v.len() {
        assert(v@[k as int] == c);
        true
    } else {
        false
    }
}
} // verus!
