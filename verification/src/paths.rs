//! Paths as text, and what `std::path` says of them.

use vstd::prelude::*;
use std::path::Path;
use crate::gamelog_parse::ascii_lower_seq;
use crate::text::chars_of;

verus! {

/// What `Path::file_name` yields for `p`, as text.
pub uninterp spec fn file_name_text(p: Seq<char>) -> Option<Seq<char>>;

/// What `Path::extension` yields for `p`, as text.
pub uninterp spec fn extension_text(p: Seq<char>) -> Option<Seq<char>>;

/// What `Path::starts_with` says of `p` and `base` (whole components).
pub uninterp spec fn path_starts_with(p: Seq<char>, base: Seq<char>) -> bool;

/// What `Path::new(a) == Path::new(b)` says: the paths have the same
/// components (so `x//y.txt` and `x/y.txt` are one path).
pub uninterp spec fn path_eq_text(a: Seq<char>, b: Seq<char>) -> bool;

/// `a` and `b` name the same path: the same text, or the same components.
pub open spec fn same_path(a: Seq<char>, b: Seq<char>) -> bool {
    a == b || path_eq_text(a, b)
}

/// Calls `==` on two `std::path::Path`s, which compares their components.
/// The contract names the result and states that a text is the same path
/// as itself.
#[verifier::external_body]
pub(crate) fn same_path_exec(a: &str, b: &str) -> (r: bool)
    ensures
        r == path_eq_text(a@, b@),
        a@ == b@ ==> r,
{
    Path::new(a) == Path::new(b)
}

/// Calls `std::path::Path::file_name` on `p`. The contract names the result.
#[verifier::external_body]
pub(crate) fn file_name_of(p: &str) -> (r: Option<String>)
    ensures
        match r {
            Some(n) => file_name_text(p@) == Some(n@),
            None => file_name_text(p@) is None,
        },
{
    Path::new(p).file_name().and_then(|n| n.to_str()).map(|n| n.to_string())
}

/// Calls `std::path::Path::extension` on `p`. The contract names the result.
#[verifier::external_body]
pub(crate) fn extension_of(p: &str) -> (r: Option<String>)
    ensures
        match r {
            Some(e) => extension_text(p@) == Some(e@),
            None => extension_text(p@) is None,
        },
{
    Path::new(p).extension().and_then(|e| e.to_str()).map(|e| e.to_string())
}

/// Calls `std::path::Path::starts_with`. The contract names the result.
#[verifier::external_body]
pub(crate) fn starts_with_path(p: &str, base: &str) -> (r: bool)
    ensures
        r == path_starts_with(p@, base@),
{
    Path::new(p).starts_with(Path::new(base))
}

/// `str::eq_ignore_ascii_case`.
pub open spec fn eq_ignore_ascii_case(a: Seq<char>, b: Seq<char>) -> bool {
    ascii_lower_seq(a) == ascii_lower_seq(b)
}

pub fn eq_ignore_ascii_case_exec(a: &str, b: &str) -> (r: bool)
    ensures
        r == eq_ignore_ascii_case(a@, b@),
{
    let x = chars_of(a);
    let y = chars_of(b);
    if x.len() != y.len() {
        assert(ascii_lower_seq(a@).len() != ascii_lower_seq(b@).len());
        return false;
    }
    let mut i: usize = 0;
    while i < x.len()
        invariant
            x@ == a@,
            y@ == b@,
            x@.len() == y@.len(),
            0 <= i <= x@.len(),
            forall|j: int| 0 <= j < i ==> ascii_lower_seq(a@)[j] == ascii_lower_seq(b@)[j],
        decreases x@.len() - i,
    {
        let c = x[i];
        let d = y[i];
        let lc = if 'A' <= c && c <= 'Z' {
            ((c as u8) + 32) as char
        } else {
            c
        };
        let ld = if 'A' <= d && d <= 'Z' {
            ((d as u8) + 32) as char
        } else {
            d
        };
        if lc != ld {
            assert(ascii_lower_seq(a@)[i as int] != ascii_lower_seq(b@)[i as int]);
            return false;
        }
        i = i + 1;
    }
    assert(ascii_lower_seq(a@) =~= ascii_lower_seq(b@));
    true
}

} // verus!
