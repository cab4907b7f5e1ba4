//! Character-level recognizers shared by the grammar: whitespace and comment
//! skipping, literal matching, identifiers and numeric literals.
//!
//! Every recognizer works on a borrowed source string and a character
//! position, and returns the position it stopped at; none of them allocates
//! except to hand a recognized token out.

use vstd::prelude::*;
use vstd::string::StrSliceExecFns;
use vstd::wrapping::u64_specs;

verus! {

/// Whitespace proper: space, tab, carriage return and newline.
pub open spec fn is_space(c: char) -> bool {
    c == ' ' || c == '\t' || c == '\n' || c == '\r'
}

/// Where skipping whitespace and `/* ... */` comments from position `i`
/// stops. `com` is `Some(c0)` while inside a comment that opened at `c0`; an
/// unterminated comment does not count as skippable, so the scan falls back
/// to its opening position.
pub open spec fn ws_scan(s: Seq<char>, i: int, com: Option<int>) -> int
    decreases s.len() - i,
    when 0 <= i
{
    if i >= s.len() {
        match com {
            Option::None => i,
            Option::Some(c0) => c0,
        }
    } else {
        match com {
            Option::Some(c0) => {
                if s[i] == '*' && i + 1 < s.len() && s[i + 1] == '/' {
                    ws_scan(s, i + 2, Option::None)
                } else {
                    ws_scan(s, i + 1, Option::Some(c0))
                }
            },
            Option::None => {
                if is_space(s[i]) {
                    ws_scan(s, i + 1, Option::None)
                } else if s[i] == '/' && i + 1 < s.len() && s[i + 1] == '*' {
                    ws_scan(s, i + 2, Option::Some(i))
                } else {
                    i
                }
            },
        }
    }
}

/// The position at which skippable whitespace and comments end.
pub open spec fn ws_end(s: Seq<char>, i: int) -> int {
    ws_scan(s, i, Option::None)
}

/// The whole text is whitespace and well-formed comments.
pub open spec fn blank(s: Seq<char>) -> bool {
    ws_end(s, 0) == s.len()
}

/// Skipping whitespace never moves backwards nor past the end.
pub proof fn lemma_ws_scan_bounds(s: Seq<char>, i: int, com: Option<int>)
    requires
        0 <= i <= s.len(),
        com matches Option::Some(c0) ==> 0 <= c0 <= i,
    ensures
        match com {
            Option::None => i <= ws_scan(s, i, com) <= s.len(),
            Option::Some(c0) => c0 <= ws_scan(s, i, com) <= s.len(),
        },
    decreases s.len() - i,
{
    if i < s.len() {
        match com {
            Option::Some(c0) => {
                if s[i] == '*' && i + 1 < s.len() && s[i + 1] == '/' {
                    lemma_ws_scan_bounds(s, i + 2, Option::None);
                } else {
                    lemma_ws_scan_bounds(s, i + 1, Option::Some(c0));
                }
            },
            Option::None => {
                if is_space(s[i]) {
                    lemma_ws_scan_bounds(s, i + 1, Option::None);
                } else if s[i] == '/' && i + 1 < s.len() && s[i + 1] == '*' {
                    lemma_ws_scan_bounds(s, i + 2, Option::Some(i));
                }
            },
        }
    }
}

/// Find the first closing `*/` at or after `start`.
fn comment_close(s: &str, start: usize) -> (r: Option<usize>)
    requires
        start <= s@.len(),
    ensures
        match r {
            Option::Some(j) => start <= j && j + 2 <= s@.len() && forall|c0: int|
                ws_scan(s@, start as int, Option::Some(c0)) == ws_scan(s@, j + 2, Option::None),
            Option::None => forall|c0: int|
                ws_scan(s@, start as int, Option::Some(c0)) == c0,
        },
{
    let len = s.unicode_len();
    let mut j = start;
    while j < len
        invariant
            len == s@.len(),
            start <= j <= len,
            forall|c0: int| #[trigger]
                ws_scan(s@, start as int, Option::Some(c0)) == ws_scan(
                    s@,
                    j as int,
                    Option::Some(c0),
                ),
        decreases len - j,
    {
        if s.get_char(j) == '*' && j + 1 < len && s.get_char(j + 1) == '/' {
            return Some(j);
        }
        j = j + 1;
    }
    None
}

/// Skip whitespace and `/* ... */` comments, starting at `pos`. A comment
/// that never closes is not skipped: the scan stops at its `/*`.
pub fn skip_ws(s: &str, pos: usize) -> (np: usize)
    requires
        pos <= s@.len(),
    ensures
        pos <= np <= s@.len(),
        np == ws_end(s@, pos as int),
{
    let len = s.unicode_len();
    let mut i = pos;
    loop
        invariant
            len == s@.len(),
            pos <= i <= len,
            ws_end(s@, pos as int) == ws_scan(s@, i as int, Option::None),
        decreases len - i,
    {
        if i >= len {
            return i;
        }
        let c = s.get_char(i);
        if c == ' ' || c == '\t' || c == '\n' || c == '\r' {
            i = i + 1;
        } else if c == '/' && i + 1 < len && s.get_char(i + 1) == '*' {
            proof {
                assert(ws_scan(s@, i as int, Option::None) == ws_scan(
                    s@,
                    i + 2,
                    Option::Some(i as int),
                ));
            }
            // if the comment never closes, it does not count as whitespace
            // and the skip stops before it
            match comment_close(s, i + 2) {
                Option::Some(j) => {
                    i = j + 2;
                },
                Option::None => {
                    return i;
                },
            }
        } else {
            return i;
        }
    }
}

/// The word `w` occurs in `s` at position `i`.
pub open spec fn lit_match(s: Seq<char>, i: int, w: Seq<char>) -> bool {
    0 <= i && i + w.len() <= s.len() && s.subrange(i, i + w.len()) == w
}

/// Match the literal word `w` at `pos`; on success return the position just
/// past it.
pub fn lit_at(s: &str, pos: usize, w: &str) -> (r: Option<usize>)
    requires
        pos <= s@.len(),
    ensures
        match r {
            Option::Some(np) => np == pos + w@.len() && np <= s@.len() && lit_match(
                s@,
                pos as int,
                w@,
            ),
            Option::None => !lit_match(s@, pos as int, w@),
        },
{
    let len = s.unicode_len();
    let wlen = w.unicode_len();
    if wlen > len - pos {
        return None;
    }
    let mut k: usize = 0;
    while k < wlen
        invariant
            len == s@.len(),
            wlen == w@.len(),
            pos + wlen <= len,
            0 <= k <= wlen,
            forall|t: int| 0 <= t < k ==> s@[pos + t] == w@[t],
        decreases wlen - k,
    {
        if s.get_char(pos + k) != w.get_char(k) {
            assert(s@.subrange(pos as int, pos + wlen as int)[k as int] != w@[k as int]);
            return None;
        }
        k = k + 1;
    }
    proof {
        assert(s@.subrange(pos as int, pos + w@.len()) =~= w@);
    }
    Some(pos + wlen)
}

/// A character that may open an identifier: a letter, `_` or `.`.
pub open spec fn is_ident_start(c: char) -> bool {
    ('a' <= c && c <= 'z') || ('A' <= c && c <= 'Z') || c == '_' || c == '.'
}

/// A character that may continue an identifier.
pub open spec fn is_ident_char(c: char) -> bool {
    is_ident_start(c) || ('0' <= c && c <= '9')
}

fn is_ident_start_exec(c: char) -> (r: bool)
    ensures
        r == is_ident_start(c),
{
    ('a' <= c && c <= 'z') || ('A' <= c && c <= 'Z') || c == '_' || c == '.'
}

fn is_ident_char_exec(c: char) -> (r: bool)
    ensures
        r == is_ident_char(c),
{
    is_ident_start_exec(c) || ('0' <= c && c <= '9')
}

/// An identifier run never moves backwards nor past the end.
pub proof fn lemma_ident_end_bounds(s: Seq<char>, i: int)
    requires
        0 <= i <= s.len(),
    ensures
        i <= ident_end(s, i) <= s.len(),
    decreases s.len() - i,
{
    if i < s.len() && is_ident_char(s[i]) {
        lemma_ident_end_bounds(s, i + 1);
    }
}

/// Where the run of identifier characters starting at `i` ends.
pub open spec fn ident_end(s: Seq<char>, i: int) -> int
    decreases s.len() - i,
    when 0 <= i
{
    if i < s.len() && is_ident_char(s[i]) {
        ident_end(s, i + 1)
    } else {
        i
    }
}

/// Recognize an identifier at `pos`: a maximal run of identifier characters
/// opened by a letter, `_` or `.`.
pub fn ident_at(s: &str, pos: usize) -> (r: Option<(String, usize)>)
    requires
        pos <= s@.len(),
    ensures
        match r {
            Option::Some((name, np)) => pos < np <= s@.len() && np == ident_end(s@, pos + 1)
                && name@ == s@.subrange(pos as int, np as int) && is_ident_start(s@[pos as int]),
            Option::None => pos == s@.len() || !is_ident_start(s@[pos as int]),
        },
{
    let len = s.unicode_len();
    if pos >= len {
        return None;
    }
    if !is_ident_start_exec(s.get_char(pos)) {
        return None;
    }
    let mut np = pos + 1;
    while np < len && is_ident_char_exec(s.get_char(np))
        invariant
            len == s@.len(),
            pos < np <= len,
            is_ident_start(s@[pos as int]),
            ident_end(s@, pos + 1) == ident_end(s@, np as int),
        decreases len - np,
    {
        np = np + 1;
    }
    let name = s.substring_char(pos, np).to_owned();
    Some((name, np))
}

/// Compare two strings character by character.
pub fn str_eq(a: &str, b: &str) -> (r: bool)
    ensures
        r == (a@ == b@),
{
    let la = a.unicode_len();
    let lb = b.unicode_len();
    if la != lb {
        return false;
    }
    let mut k: usize = 0;
    while k < la
        invariant
            la == a@.len(),
            la == b@.len(),
            0 <= k <= la,
            forall|t: int| 0 <= t < k ==> a@[t] == b@[t],
        decreases la - k,
    {
        if a.get_char(k) != b.get_char(k) {
            return false;
        }
        k = k + 1;
    }
    proof {
        assert(a@ =~= b@);
    }
    true
}

/// A decimal digit.
pub open spec fn is_digit(c: char) -> bool {
    '0' <= c && c <= '9'
}

/// A hexadecimal digit.
pub open spec fn is_hex_digit(c: char) -> bool {
    is_digit(c) || ('a' <= c && c <= 'f') || ('A' <= c && c <= 'F')
}

fn is_digit_exec(c: char) -> (r: bool)
    ensures
        r == is_digit(c),
{
    '0' <= c && c <= '9'
}

fn is_hex_digit_exec(c: char) -> (r: bool)
    ensures
        r == is_hex_digit(c),
{
    is_digit_exec(c) || ('a' <= c && c <= 'f') || ('A' <= c && c <= 'F')
}

/// The value of one digit character; hexadecimal letters count from 10.
pub open spec fn digit_value(c: char) -> u64 {
    if is_digit(c) {
        (c as u32 - '0' as u32) as u64
    } else if 'a' <= c && c <= 'f' {
        (c as u32 - 'a' as u32 + 10) as u64
    } else if 'A' <= c && c <= 'F' {
        (c as u32 - 'A' as u32 + 10) as u64
    } else {
        0u64
    }
}

fn digit_value_exec(c: char) -> (v: u64)
    requires
        is_hex_digit(c),
    ensures
        v == digit_value(c),
{
    if '0' <= c && c <= '9' {
        (c as u32 - '0' as u32) as u64
    } else if 'a' <= c && c <= 'f' {
        (c as u32 - 'a' as u32 + 10) as u64
    } else {
        (c as u32 - 'A' as u32 + 10) as u64
    }
}

/// Fold a maximal digit run starting at `i` left to right onto `acc` with
/// wrapping 64-bit arithmetic, and say where it ends; `hex` selects the
/// digit alphabet.
pub open spec fn digits_scan(s: Seq<char>, i: int, base: u64, acc: u64, hex: bool) -> (u64, int)
    decreases s.len() - i,
    when 0 <= i
{
    if i >= s.len() || !(if hex {
        is_hex_digit(s[i])
    } else {
        is_digit(s[i])
    }) {
        (acc, i)
    } else {
        digits_scan(
            s,
            i + 1,
            base,
            u64_specs::wrapping_add(u64_specs::wrapping_mul(acc, base), digit_value(s[i])),
            hex,
        )
    }
}

/// The literal at `pos` takes the hexadecimal form: `0x` followed by at
/// least one hexadecimal digit.
pub open spec fn hex_start(s: Seq<char>, pos: int) -> bool {
    &&& 0 <= pos
    &&& s.len() - pos > 2
    &&& s[pos] == '0'
    &&& s[pos + 1] == 'x'
    &&& is_hex_digit(s[pos + 2])
}

/// A unit suffix multiplier: `k`/`K` is 1024, `m`/`M` is 1048576, anything
/// else multiplies by 1.
pub open spec fn suffix_factor(c: char) -> u64 {
    if c == 'k' || c == 'K' {
        1024u64
    } else if c == 'm' || c == 'M' {
        1048576u64
    } else {
        1u64
    }
}

/// The value of the numeric literal at `pos` and the position just past it:
/// the wrapping fold of its digit run, times the unit suffix if one follows.
pub open spec fn number_token(s: Seq<char>, pos: int) -> (u64, int) {
    let (v0, d) = if hex_start(s, pos) {
        digits_scan(s, pos + 2, 16u64, 0u64, true)
    } else {
        digits_scan(s, pos, 10u64, 0u64, false)
    };
    if d < s.len() && suffix_factor(s[d]) != 1 {
        (u64_specs::wrapping_mul(v0, suffix_factor(s[d])), d + 1)
    } else {
        (v0, d)
    }
}

/// A digit run never moves backwards nor past the end.
pub proof fn lemma_digits_scan_bounds(s: Seq<char>, i: int, base: u64, acc: u64, hex: bool)
    requires
        0 <= i <= s.len(),
    ensures
        i <= digits_scan(s, i, base, acc, hex).1 <= s.len(),
    decreases s.len() - i,
{
    if i < s.len() && (if hex {
        is_hex_digit(s[i])
    } else {
        is_digit(s[i])
    }) {
        lemma_digits_scan_bounds(
            s,
            i + 1,
            base,
            u64_specs::wrapping_add(u64_specs::wrapping_mul(acc, base), digit_value(s[i])),
            hex,
        );
    }
}

/// A numeric literal that opens with a digit ends strictly after it and
/// within the text.
pub proof fn lemma_number_token_end(s: Seq<char>, pos: int)
    requires
        0 <= pos < s.len(),
        is_digit(s[pos]),
    ensures
        pos < number_token(s, pos).1 <= s.len(),
{
    if hex_start(s, pos) {
        lemma_digits_scan_bounds(s, pos + 2, 16u64, 0u64, true);
        lemma_digits_scan_bounds(
            s,
            pos + 3,
            16u64,
            u64_specs::wrapping_add(u64_specs::wrapping_mul(0u64, 16u64), digit_value(s[pos + 2])),
            true,
        );
    } else {
        lemma_digits_scan_bounds(
            s,
            pos + 1,
            10u64,
            u64_specs::wrapping_add(u64_specs::wrapping_mul(0u64, 10u64), digit_value(s[pos])),
            false,
        );
    }
}

/// Recognize a numeric literal at `pos`: a decimal digit run, or `0x` plus a
/// hexadecimal digit run, optionally followed by a unit suffix `k`/`K`
/// (x 1024) or `m`/`M` (x 1048576). Digits are folded into the value with
/// wrapping 64-bit arithmetic.
pub fn number_at(s: &str, pos: usize) -> (r: Option<(u64, usize)>)
    requires
        pos <= s@.len(),
    ensures
        match r {
            Option::Some((v, np)) => pos < np <= s@.len() && is_digit(s@[pos as int]) && (
            v,
            np as int,
            ) == number_token(s@, pos as int),
            Option::None => pos == s@.len() || !is_digit(s@[pos as int]),
        },
{
    let len = s.unicode_len();
    if pos >= len {
        return None;
    }
    let c0 = s.get_char(pos);
    if !is_digit_exec(c0) {
        return None;
    }
    let mut v: u64 = 0;
    let mut i = pos;
    if c0 == '0' && len - pos > 2 && s.get_char(pos + 1) == 'x' && is_hex_digit_exec(
        s.get_char(pos + 2),
    ) {
        i = pos + 2;
        while i < len && is_hex_digit_exec(s.get_char(i))
            invariant
                len == s@.len(),
                pos < i <= len,
                hex_start(s@, pos as int),
                digits_scan(s@, pos + 2, 16u64, 0u64, true) == digits_scan(
                    s@,
                    i as int,
                    16u64,
                    v,
                    true,
                ),
            decreases len - i,
        {
            v = v.wrapping_mul(16).wrapping_add(digit_value_exec(s.get_char(i)));
            i = i + 1;
        }
    } else {
        while i < len && is_digit_exec(s.get_char(i))
            invariant
                len == s@.len(),
                pos <= i <= len,
                !hex_start(s@, pos as int),
                digits_scan(s@, pos as int, 10u64, 0u64, false) == digits_scan(
                    s@,
                    i as int,
                    10u64,
                    v,
                    false,
                ),
            decreases len - i,
        {
            v = v.wrapping_mul(10).wrapping_add(digit_value_exec(s.get_char(i)));
            i = i + 1;
        }
    }
    if i < len {
        let c = s.get_char(i);
        if c == 'k' || c == 'K' {
            v = v.wrapping_mul(1024);
            i = i + 1;
        } else if c == 'm' || c == 'M' {
            v = v.wrapping_mul(1048576);
            i = i + 1;
        }
    }
    Some((v, i))
}

} // verus!
