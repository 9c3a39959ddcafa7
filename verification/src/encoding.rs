//! Decoding EVE chatlog bytes. Live logs are typically UTF-16LE with a BOM;
//! fixtures and some exports are UTF-8.

use vstd::prelude::*;

verus! {

/// What `String::from_utf16_lossy` yields for `units`: a high surrogate
/// followed by a low one is one character; any other surrogate is U+FFFD;
/// every other unit is its own character.
pub open spec fn utf16_lossy_text(units: Seq<u16>) -> Seq<char>
    decreases units.len(),
{
    if units.len() == 0 {
        seq![]
    } else if 0xD800 <= units[0] <= 0xDBFF && units.len() >= 2 && 0xDC00 <= units[1] <= 0xDFFF {
        seq![(0x10000 + (units[0] - 0xD800) * 0x400 + (units[1] - 0xDC00)) as char] + utf16_lossy_text(
            units.skip(2),
        )
    } else if 0xD800 <= units[0] <= 0xDFFF {
        seq!['\u{FFFD}'] + utf16_lossy_text(units.skip(1))
    } else {
        seq![units[0] as char] + utf16_lossy_text(units.skip(1))
    }
}

/// What `std::str::from_utf8` yields for `bytes`: the decoded text of
/// well-formed UTF-8 (no overlong forms, no surrogates, nothing above
/// U+10FFFF), `None` for anything else.
pub open spec fn utf8_text(bytes: Seq<u8>) -> Option<Seq<char>> {
    if vstd::utf8::valid_utf8(bytes) {
        Some(vstd::utf8::decode_utf8(bytes))
    } else {
        None
    }
}

/// Calls `String::from_utf16_lossy`. The contract states its result:
/// surrogate pairs decoded, lone surrogates replaced by U+FFFD.
#[verifier::external_body]
fn utf16_lossy(units: &Vec<u16>) -> (r: String)
    ensures
        r@ == utf16_lossy_text(units@),
{
    String::from_utf16_lossy(units)
}

/// Calls `std::str::from_utf8` and copies the text out. The contract states
/// the result: the decoded text exactly when the bytes are well-formed
/// UTF-8.
#[verifier::external_body]
fn utf8_decode(bytes: &Vec<u8>) -> (r: Option<String>)
    ensures
        match r {
            Some(s) => utf8_text(bytes@) == Some(s@),
            None => utf8_text(bytes@) is None,
        },
{
    std::str::from_utf8(bytes).ok().map(|s| s.to_string())
}

/// Why bytes are not a chatlog.
#[derive(Debug, Clone, Copy, PartialEq, Eq, Structural)]
pub enum ChatlogError {
    /// Neither UTF-8 nor UTF-16.
    NotText,
}

impl ChatlogError {
    pub fn message(&self) -> (r: String)
        ensures
            r@ == "chatlog is not valid UTF-8 or UTF-16"@,
    {
        String::from_str("chatlog is not valid UTF-8 or UTF-16")
    }
}

/// Little-endian 16-bit units of `b`, pair by pair (a trailing odd byte is
/// dropped).
pub open spec fn le_units(b: Seq<u8>) -> Seq<u16> {
    Seq::new(b.len() / 2, |i: int| (b[2 * i] + 256 * b[2 * i + 1]) as u16)
}

/// Big-endian 16-bit units of `b`, pair by pair.
pub open spec fn be_units(b: Seq<u8>) -> Seq<u16> {
    Seq::new(b.len() / 2, |i: int| (256 * b[2 * i] + b[2 * i + 1]) as u16)
}

/// Number of zero bytes among `b[0], b[2], …` below index `2 * n`.
pub open spec fn even_nuls(b: Seq<u8>, n: int) -> nat
    decreases n,
{
    if n <= 0 {
        0
    } else {
        even_nuls(b, n - 1) + if b[2 * (n - 1)] == 0 {
            1nat
        } else {
            0nat
        }
    }
}

pub open spec fn starts2(b: Seq<u8>, x: u8, y: u8) -> bool {
    b.len() >= 2 && b[0] == x && b[1] == y
}

/// The text of chatlog bytes: UTF-16LE or UTF-16BE after their BOM, else
/// UTF-8 (after an optional BOM), else UTF-16LE without BOM when the buffer
/// has an even length of at least four and more than an eighth of its
/// bytes are zeros at even positions; otherwise no text.
pub open spec fn decode_of(b: Seq<u8>) -> Option<Seq<char>> {
    if starts2(b, 0xFF, 0xFE) {
        Some(utf16_lossy_text(le_units(b.skip(2))))
    } else if starts2(b, 0xFE, 0xFF) {
        Some(utf16_lossy_text(be_units(b.skip(2))))
    } else {
        let slice = if b.len() >= 3 && b[0] == 0xEF && b[1] == 0xBB && b[2] == 0xBF {
            b.skip(3)
        } else {
            b
        };
        match utf8_text(slice) {
            Some(s) => Some(s),
            None => if b.len() >= 4 && b.len() % 2 == 0 && even_nuls(b, (b.len() / 2) as int) > b.len() / 8 {
                Some(utf16_lossy_text(le_units(b)))
            } else {
                None
            },
        }
    }
}

fn units_from(bytes: &[u8], start: usize, little: bool) -> (r: Vec<u16>)
    requires
        start <= bytes@.len(),
    ensures
        r@ == if little {
            le_units(bytes@.skip(start as int))
        } else {
            be_units(bytes@.skip(start as int))
        },
{
    let ghost b = bytes@.skip(start as int);
    let n = (bytes.len() - start) / 2;
    let mut out: Vec<u16> = Vec::new();
    let mut i: usize = 0;
    while i < n
        invariant
            0 <= i <= n,
            n == b.len() / 2,
            b == bytes@.skip(start as int),
            start <= bytes@.len(),
            out@.len() == i,
            forall|k: int| 0 <= k < i ==> #[trigger] out@[k] == (if little {
                le_units(b)[k]
            } else {
                be_units(b)[k]
            }),
        decreases n - i,
    {
        assert(b.len() == bytes@.len() - start);
        assert(2 * i + 1 < b.len()) by (nonlinear_arith)
            requires
                i < n,
                n == b.len() / 2,
        ;
        assert(start + 2 * i + 1 < bytes.len());
        let lo = bytes[start + 2 * i];
        let hi = bytes[start + 2 * i + 1];
        assert(b[2 * i] == lo && b[2 * i + 1] == hi);
        let u: u16 = if little {
            lo as u16 + (hi as u16) * 256
        } else {
            (lo as u16) * 256 + hi as u16
        };
        out.push(u);
        i = i + 1;
    }
    proof {
        if little {
            assert(out@ =~= le_units(b));
        } else {
            assert(out@ =~= be_units(b));
        }
    }
    out
}

fn copy_from(bytes: &[u8], start: usize) -> (r: Vec<u8>)
    requires
        start <= bytes@.len(),
    ensures
        r@ == bytes@.skip(start as int),
{
    let mut out: Vec<u8> = Vec::new();
    let mut i = start;
    while i < bytes.len()
        invariant
            start <= i <= bytes@.len(),
            out@ == bytes@.subrange(start as int, i as int),
        decreases bytes@.len() - i,
    {
        out.push(bytes[i]);
        assert(bytes@.subrange(start as int, i + 1) =~= bytes@.subrange(start as int, i as int).push(
            bytes@[i as int],
        ));
        i = i + 1;
    }
    assert(bytes@.subrange(start as int, bytes@.len() as int) =~= bytes@.skip(start as int));
    out
}

/// Decode chatlog bytes (`decode_of`).
pub fn decode_chatlog_bytes(bytes: &[u8]) -> (r: Result<String, ChatlogError>)
    ensures
        match r {
            Ok(s) => decode_of(bytes@) == Some(s@),
            Err(_) => decode_of(bytes@) is None,
        },
{
    let len = bytes.len();
    if len >= 2 && bytes[0] == 0xFF && bytes[1] == 0xFE {
        let units = units_from(bytes, 2, true);
        return Ok(utf16_lossy(&units));
    }
    if len >= 2 && bytes[0] == 0xFE && bytes[1] == 0xFF {
        let units = units_from(bytes, 2, false);
        return Ok(utf16_lossy(&units));
    }
    let start: usize = if len >= 3 && bytes[0] == 0xEF && bytes[1] == 0xBB && bytes[2] == 0xBF {
        3
    } else {
        0
    };
    let slice = copy_from(bytes, start);
    assert(bytes@.skip(0) =~= bytes@);
    match utf8_decode(&slice) {
        Some(s) => Ok(s),
        None => {
            if len >= 4 && len % 2 == 0 {
                let mut nul: usize = 0;
                let mut k: usize = 0;
                while k < len / 2
                    invariant
                        len == bytes@.len(),
                        0 <= k <= len / 2,
                        nul == even_nuls(bytes@, k as int),
                        nul <= k,
                    decreases len / 2 - k,
                {
                    if bytes[2 * k] == 0 {
                        nul = nul + 1;
                    }
                    k = k + 1;
                }
                if nul > len / 8 {
                    let units = units_from(bytes, 0, true);
                    return Ok(utf16_lossy(&units));
                }
            }
            Err(ChatlogError::NotText)
        },
    }
}

} // verus!
